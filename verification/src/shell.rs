//! The shell's command line and the size of its PTY.

use vstd::prelude::*;
use vstd::string::*;
use vstd::utf8::*;

use crate::path;
use crate::path::UnixPath;
use crate::protocol::WindowSize;
use crate::text;
use crate::text::{chars_of, copy_strings, copy_text, push_string, string_of, tail_after};

verus! {

/// A command to run: the program, its arguments, and the name it is told it
/// runs under where that differs from the program.
#[derive(Debug, Clone, PartialEq, Eq)]
pub struct ShellCommand {
    pub program: String,
    pub args: Vec<String>,
    pub arg0: Option<String>,
}

/// What a [`ShellCommand`] says.
#[verifier::ext_equal]
pub struct ShellCommandView {
    pub program: Seq<char>,
    pub args: Seq<Seq<char>>,
    pub arg0: Option<Seq<char>>,
}

impl View for ShellCommand {
    type V = ShellCommandView;

    open spec fn view(&self) -> ShellCommandView {
        ShellCommandView {
            program: self.program@,
            args: text::strings(self.args@),
            arg0: match self.arg0 {
                Some(name) => Some(name@),
                None => None,
            },
        }
    }
}

/// How a login shell is run on macOS: through `login`, for this user.
pub struct MacLogin {
    /// The user's name (`$USER`), where it is known.
    pub user: Option<String>,
    /// Whether the user's home directory holds a `.hushlogin`.
    pub hushlogin: bool,
}

/// The name of a shell: the last part of its path.
pub open spec fn shell_name(shell: Seq<char>) -> Seq<char> {
    text::after_last(shell, '/')
}

/// The command that runs a login shell by the convention for other systems: a
/// name that starts with a dash.
pub open spec fn login_command(shell: Seq<char>) -> ShellCommandView {
    ShellCommandView { program: shell, args: seq![], arg0: Some(seq!['-'] + shell_name(shell)) }
}

/// The command that runs a login shell on macOS.
pub open spec fn macos_login_command(shell: Seq<char>, login: MacLogin) -> ShellCommandView {
    ShellCommandView {
        program: "/usr/bin/login"@,
        args: seq![
            if login.hushlogin {
                "-qflp"@
            } else {
                "-flp"@
            },
            match login.user {
                Some(user) => user@,
                None => "unknown"@,
            },
            "/bin/zsh"@,
            "-fc"@,
            "exec -a -"@ + shell_name(shell) + seq![' '] + shell,
        ],
        arg0: None,
    }
}

/// The command that runs a shell: as it is where arguments are given, and
/// otherwise as a login shell.
pub open spec fn shell_command(
    shell: Seq<char>,
    args: Seq<Seq<char>>,
    login: Option<MacLogin>,
) -> ShellCommandView {
    if args.len() > 0 {
        ShellCommandView { program: shell, args, arg0: None }
    } else {
        match login {
            Some(login) => macos_login_command(shell, login),
            None => login_command(shell),
        }
    }
}

fn name_of(shell: &str) -> (name: String)
    ensures
        name@ == shell_name(shell@),
{
    let cs: Vec<char> = chars_of(shell);
    string_of(tail_after(cs.as_slice(), '/'))
}

/// Builds the command that runs a shell. On macOS `login` says how a login
/// shell is run there; elsewhere it is `None`.
pub fn build_shell_command(shell: &str, args: &[String], login: Option<MacLogin>) -> (cmd:
    ShellCommand)
    ensures
        cmd@ == shell_command(shell@, text::strings(args@), login),
{
    if args.len() > 0 {
        return ShellCommand { program: copy_text(shell), args: copy_strings(args), arg0: None };
    }
    match login {
        Some(login) => build_macos_login_command(shell, login),
        None => {
            let mut arg0: String = copy_text("");
            proof {
                reveal_strlit("");
            }
            arg0.push('-');
            arg0.append(name_of(shell).as_str());
            assert(arg0@ =~= seq!['-'] + shell_name(shell@));
            let cmd = ShellCommand {
                program: copy_text(shell),
                args: Vec::new(),
                arg0: Some(arg0),
            };
            assert(cmd@ =~= login_command(shell@));
            cmd
        },
    }
}

/// Builds the command that runs a login shell on macOS.
pub fn build_macos_login_command(shell: &str, login: MacLogin) -> (cmd: ShellCommand)
    ensures
        cmd@ == macos_login_command(shell@, login),
{
    let mut exec: String = copy_text("exec -a -");
    exec.append(name_of(shell).as_str());
    exec.push(' ');
    exec.append(shell);
    assert(exec@ =~= "exec -a -"@ + shell_name(shell@) + seq![' '] + shell@);
    let flags: String = if login.hushlogin {
        copy_text("-qflp")
    } else {
        copy_text("-flp")
    };
    let user: String = match login.user {
        Some(user) => user,
        None => copy_text("unknown"),
    };
    let mut args: Vec<String> = Vec::new();
    assert(text::strings(args@) =~= Seq::<Seq<char>>::empty());
    push_string(&mut args, flags);
    push_string(&mut args, user);
    push_string(&mut args, copy_text("/bin/zsh"));
    push_string(&mut args, copy_text("-fc"));
    push_string(&mut args, exec);
    let cmd = ShellCommand { program: copy_text("/usr/bin/login"), args, arg0: None };
    assert(cmd@ =~= macos_login_command(shell@, login));
    cmd
}

/// The file whose presence silences `login`, for a user whose home directory
/// (`$HOME`) is this.
pub fn hushlogin_path(home: Option<&str>) -> (file: UnixPath)
    ensures
        file@ == path::joined(
            encode_utf8(match home {
                Some(home) => home@,
                None => "/"@,
            }),
            encode_utf8(".hushlogin"@),
        ),
{
    let base: UnixPath = match home {
        Some(home) => UnixPath::from_text(home),
        None => UnixPath::from_text("/"),
    };
    base.join(".hushlogin".as_bytes())
}

/// The size of a PTY as the kernel holds it: in cells and in pixels.
#[derive(Debug, Clone, Copy, PartialEq, Eq, Structural)]
pub struct PtySize {
    pub rows: u16,
    pub cols: u16,
    pub xpixel: u16,
    pub ypixel: u16,
}

/// Whether the pixel sizes of a window fit in 16 bits.
pub open spec fn fits_in_pixels(size: WindowSize) -> bool {
    size.cols * size.cell_width <= u16::MAX && size.rows * size.cell_height <= u16::MAX
}

/// Whether the pixel sizes of a window fit in 16 bits.
pub fn pixels_fit(size: &WindowSize) -> (fit: bool)
    ensures
        fit == fits_in_pixels(*size),
{
    let width: u64 = widen(size.cols, size.cell_width);
    let height: u64 = widen(size.rows, size.cell_height);
    width <= u16::MAX as u64 && height <= u16::MAX as u64
}

fn widen(a: u16, b: u16) -> (product: u64)
    ensures
        product == a * b,
{
    assert(a * b <= 0xffff * 0xffff) by (nonlinear_arith)
        requires
            0 <= a <= 0xffff,
            0 <= b <= 0xffff,
    ;
    assert(0 <= a * b) by (nonlinear_arith)
        requires
            0 <= a,
            0 <= b,
    ;
    (a as u64) * (b as u64)
}

/// The size of the PTY for a window. A pixel size that does not fit wraps
/// around.
pub fn to_winsize(size: &WindowSize) -> (ws: PtySize)
    ensures
        ws.rows == size.rows,
        ws.cols == size.cols,
        ws.xpixel == (size.cols * size.cell_width) % 0x1_0000,
        ws.ypixel == (size.rows * size.cell_height) % 0x1_0000,
{
    PtySize {
        rows: size.rows,
        cols: size.cols,
        xpixel: (widen(size.cols, size.cell_width) % 0x1_0000) as u16,
        ypixel: (widen(size.rows, size.cell_height) % 0x1_0000) as u16,
    }
}

} // verus!
