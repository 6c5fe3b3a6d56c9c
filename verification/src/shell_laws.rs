//! What holds of the shell's command line and the size of its PTY.

use vstd::prelude::*;

use crate::config::SessionConfig;
use crate::protocol::WindowSize;
use crate::shell::{
    build_macos_login_command, build_shell_command, pixels_fit, to_winsize, MacLogin, PtySize,
    ShellCommand,
};
use crate::text;
use crate::text_laws;

verus! {

/// A shell that is given any arguments runs as it is, with exactly these
/// arguments and under its own name: no argument is dropped, added or moved, on
/// any system.
pub proof fn law_given_arguments_are_kept(
    shell: &str,
    args: &[String],
    login: Option<MacLogin>,
    cmd: ShellCommand,
)
    requires
        args@.len() > 0,
        call_ensures(build_shell_command, (shell, args, login), cmd),
    ensures
        cmd.program@ == shell@,
        cmd.args@.len() == args@.len(),
        forall|i: int| 0 <= i < args@.len() ==> (#[trigger] cmd.args@[i])@ == args@[i]@,
        cmd.arg0 is None,
{
    assert(text::strings(cmd.args@) == text::strings(args@));
    assert forall|i: int| 0 <= i < args@.len() implies (#[trigger] cmd.args@[i])@ == args@[i]@ by {
        assert(text::strings(cmd.args@)[i] == text::strings(args@)[i]);
    }
}

/// A shell without arguments runs as a login shell: itself, under its name after
/// a dash, where the name is what follows the last slash of its path.
pub proof fn law_shells_without_arguments_are_login_shells(
    shell: &str,
    args: &[String],
    dir: Seq<char>,
    name: Seq<char>,
    cmd: ShellCommand,
)
    requires
        args@.len() == 0,
        call_ensures(build_shell_command, (shell, args, None), cmd),
        !name.contains('/'),
        shell@ == name || shell@ == dir + seq!['/'] + name,
    ensures
        cmd.program@ == shell@,
        cmd.args@.len() == 0,
        cmd.arg0 matches Some(arg0) && arg0@ == seq!['-'] + name,
{
    text_laws::law_after_the_last(dir, '/', name);
    assert(text::strings(cmd.args@).len() == 0);
}

/// On macOS a shell without arguments is run by `login`, for the user and without
/// a message where the user silenced it, through a plain shell that puts the
/// login shell in its place.
pub proof fn law_macos_logs_in(
    shell: &str,
    args: &[String],
    login: MacLogin,
    dir: Seq<char>,
    name: Seq<char>,
    cmd: ShellCommand,
)
    requires
        args@.len() == 0,
        call_ensures(build_shell_command, (shell, args, Some(login)), cmd) || call_ensures(
            build_macos_login_command,
            (shell, login),
            cmd,
        ),
        !name.contains('/'),
        shell@ == name || shell@ == dir + seq!['/'] + name,
    ensures
        cmd.program@ == "/usr/bin/login"@,
        cmd.arg0 is None,
        cmd.args@.len() == 5,
        login.hushlogin ==> cmd.args@[0]@ == "-qflp"@,
        !login.hushlogin ==> cmd.args@[0]@ == "-flp"@,
        login.user matches Some(user) ==> cmd.args@[1]@ == user@,
        login.user is None ==> cmd.args@[1]@ == "unknown"@,
        cmd.args@[2]@ == "/bin/zsh"@,
        cmd.args@[3]@ == "-fc"@,
        cmd.args@[4]@ == "exec -a -"@ + name + seq![' '] + shell@,
{
    text_laws::law_after_the_last(dir, '/', name);
    let all = text::strings(cmd.args@);
    assert(all.len() == 5);
    assert(all[0] == cmd.args@[0]@);
    assert(all[1] == cmd.args@[1]@);
    assert(all[2] == cmd.args@[2]@);
    assert(all[3] == cmd.args@[3]@);
    assert(all[4] == cmd.args@[4]@);
}

/// A PTY has the columns and rows of its window, and in pixels as many times the
/// size of a cell, up to what can be held; what can be held is told apart.
pub proof fn law_pty_sizes(size: WindowSize, ws: PtySize, fits: bool)
    requires
        call_ensures(to_winsize, (&size,), ws),
        call_ensures(pixels_fit, (&size,), fits),
    ensures
        ws.rows == size.rows,
        ws.cols == size.cols,
        fits == (size.cols * size.cell_width < 0x1_0000 && size.rows * size.cell_height < 0x1_0000),
        (size.cols * size.cell_width - ws.xpixel) % 0x1_0000 == 0,
        (size.rows * size.cell_height - ws.ypixel) % 0x1_0000 == 0,
        size.cols * size.cell_width < 0x1_0000 ==> ws.xpixel == size.cols * size.cell_width,
        size.rows * size.cell_height < 0x1_0000 ==> ws.ypixel == size.rows * size.cell_height,
{
    assert(0 <= size.cols * size.cell_width) by (nonlinear_arith)
        requires
            0 <= size.cols,
            0 <= size.cell_width,
    ;
    assert(0 <= size.rows * size.cell_height) by (nonlinear_arith)
        requires
            0 <= size.rows,
            0 <= size.cell_height,
    ;
}

/// A session runs the user's shell by default, or the standard one where that is
/// not known, without arguments, variables or a directory of its own, on a
/// terminal of the usual size that keeps ten thousand lines.
pub proof fn law_default_sessions(shell: Option<String>, config: SessionConfig)
    requires
        call_ensures(SessionConfig::default_for, (shell,), config),
    ensures
        shell matches Some(user) ==> config.program@ == user@,
        shell is None ==> config.program@ == "/bin/sh"@,
        config.args@.len() == 0,
        config.env@.len() == 0,
        config.working_directory is None,
        config.socket_path@.len() == 0,
        config.max_scrollback_lines == 10_000,
        config.initial_size.cols == 80,
        config.initial_size.rows == 24,
        config.initial_size.cell_width == 8,
        config.initial_size.cell_height == 16,
{
    assert(config@.args.len() == config.args@.len());
    assert(config@.env.len() == config.env@.len());
}

} // verus!
