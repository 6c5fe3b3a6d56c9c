//! The command line: what it asks for, and how one process asks another.

use vstd::prelude::*;
use vstd::slice::*;
use vstd::string::*;
use vstd::utf8::*;

use crate::config;
use crate::config::{SessionConfig, SessionConfigView};
use crate::ids;
use crate::ids::SessionId;
use crate::path;
use crate::path::UnixPath;
use crate::protocol::WindowSize;
use crate::sockets;
use crate::sockets::socket_path_for_session;
use crate::text;
use crate::text::{chars_of, copy_text, parse_number, push_string, string_of, text_eq};

verus! {

// ---------------------------------------------------------------------------
// Which command
// ---------------------------------------------------------------------------

/// What a command line asks for.
pub enum Command {
    /// Show how to use the program.
    Help,
    /// List the sessions.
    List,
    /// Kill the session of this ID; the ID may be missing.
    Kill(Option<String>),
    /// Attach to the session of this ID; the ID may be missing.
    Attach(Option<String>),
    /// Run a session.
    Run,
}

/// What a [`Command`] says.
#[verifier::ext_equal]
pub enum CommandView {
    Help,
    List,
    Kill(Option<Seq<char>>),
    Attach(Option<Seq<char>>),
    Run,
}

impl View for Command {
    type V = CommandView;

    open spec fn view(&self) -> CommandView {
        match self {
            Command::Help => CommandView::Help,
            Command::List => CommandView::List,
            Command::Kill(id) => CommandView::Kill(config::maybe_text(*id)),
            Command::Attach(id) => CommandView::Attach(config::maybe_text(*id)),
            Command::Run => CommandView::Run,
        }
    }
}

/// The position of the first argument that is `word`, or -1 where none is.
pub open spec fn position(args: Seq<Seq<char>>, word: Seq<char>) -> int
    decreases args.len(),
{
    if args.len() == 0 {
        -1
    } else if args[0] == word {
        0
    } else if position(args.skip(1), word) < 0 {
        -1
    } else {
        1 + position(args.skip(1), word)
    }
}

/// The argument at a position, where there is one.
pub open spec fn argument(args: Seq<Seq<char>>, at: int) -> Option<Seq<char>> {
    if 0 <= at < args.len() {
        Some(args[at])
    } else {
        None
    }
}

/// What a command line asks for. The words that select a command count wherever
/// they stand.
pub open spec fn command_of(args: Seq<Seq<char>>) -> CommandView {
    if position(args, "--help"@) >= 0 || position(args, "-h"@) >= 0 {
        CommandView::Help
    } else if position(args, "--list"@) >= 0 {
        CommandView::List
    } else if position(args, "--kill"@) >= 0 {
        CommandView::Kill(argument(args, position(args, "--kill"@) + 1))
    } else if position(args, "--attach"@) >= 0 {
        CommandView::Attach(argument(args, position(args, "--attach"@) + 1))
    } else {
        CommandView::Run
    }
}

fn find(args: &[String], word: &str) -> (at: Option<usize>)
    ensures
        match at {
            Some(i) => position(text::strings(args@), word@) == i && i < args@.len(),
            None => position(text::strings(args@), word@) < 0,
        },
{
    let ghost all = text::strings(args@);
    let mut i: usize = 0;
    assert(all.skip(0) =~= all);
    while i < args.len()
        invariant
            i <= args@.len(),
            all == text::strings(args@),
            position(all, word@) == if position(all.skip(i as int), word@) < 0 {
                -1
            } else {
                i + position(all.skip(i as int), word@)
            },
        decreases args@.len() - i,
    {
        assert(all.skip(i as int)[0] == args@[i as int]@);
        assert(all.skip(i as int).skip(1) =~= all.skip(i + 1));
        if text_eq(args[i].as_str(), word) {
            return Some(i);
        }
        i = i + 1;
    }
    None
}

fn argument_after(args: &[String], at: usize) -> (arg: Option<String>)
    requires
        at < args@.len(),
    ensures
        config::maybe_text(arg) == argument(text::strings(args@), at + 1),
{
    assert(at < args.len());
    if at + 1 < args.len() {
        Some(copy_text(args[at + 1].as_str()))
    } else {
        None
    }
}

/// Finds out what a command line asks for.
pub fn choose_command(args: &[String]) -> (command: Command)
    ensures
        command@ == command_of(text::strings(args@)),
{
    if find(args, "--help").is_some() || find(args, "-h").is_some() {
        return Command::Help;
    }
    if find(args, "--list").is_some() {
        return Command::List;
    }
    if let Some(at) = find(args, "--kill") {
        return Command::Kill(argument_after(args, at));
    }
    if let Some(at) = find(args, "--attach") {
        return Command::Attach(argument_after(args, at));
    }
    Command::Run
}

/// What follows the first argument that is `flag`, where something does.
pub open spec fn value_after(args: Seq<Seq<char>>, flag: Seq<char>) -> Option<Seq<char>> {
    if position(args, flag) >= 0 {
        argument(args, position(args, flag) + 1)
    } else {
        None
    }
}

/// Finds what follows the first argument that is `flag`.
pub fn find_value(args: &[String], flag: &str) -> (value: Option<String>)
    ensures
        config::maybe_text(value) == value_after(text::strings(args@), flag@),
{
    match find(args, flag) {
        Some(at) => argument_after(args, at),
        None => None,
    }
}

/// The file that a session's log goes to, below the directory for temporary
/// files.
pub open spec fn log_path(base: Seq<u8>, id: Seq<char>) -> Seq<u8> {
    path::joined(log_dir(base), encode_utf8(id + ".log"@))
}

/// The directory of session logs, below the directory for temporary files.
pub open spec fn log_dir(base: Seq<u8>) -> Seq<u8> {
    path::joined(path::joined(base, encode_utf8("zed-pty"@)), encode_utf8("logs"@))
}

/// The directory of session logs, below the directory for temporary files.
pub fn log_directory(base: &UnixPath) -> (dir: UnixPath)
    ensures
        dir@ == log_dir(base@),
{
    base.join("zed-pty".as_bytes()).join("logs".as_bytes())
}

/// The file that the log of the session on the command line goes to, where the
/// command line names a session.
pub fn log_file(base: &UnixPath, args: &[String]) -> (file: Option<UnixPath>)
    ensures
        match file {
            Some(f) => value_after(text::strings(args@), "--session"@) matches Some(id) && f@
                == log_path(base@, id),
            None => value_after(text::strings(args@), "--session"@) is None,
        },
{
    match find_value(args, "--session") {
        Some(id) => {
            let mut name: String = id;
            name.append(".log");
            Some(log_directory(base).join(name.as_str().as_bytes()))
        },
        None => None,
    }
}

// ---------------------------------------------------------------------------
// Session arguments
// ---------------------------------------------------------------------------

/// What the session arguments so far have set.
pub struct SessionArgs {
    pub config: SessionConfig,
    pub session_id: Option<SessionId>,
    pub socket_override: Option<String>,
    pub cols: u16,
    pub rows: u16,
}

/// What a [`SessionArgs`] says.
#[verifier::ext_equal]
pub struct SessionArgsView {
    pub config: SessionConfigView,
    pub session_id: Option<u128>,
    pub socket_override: Option<Seq<char>>,
    pub cols: u16,
    pub rows: u16,
}

impl View for SessionArgs {
    type V = SessionArgsView;

    open spec fn view(&self) -> SessionArgsView {
        SessionArgsView {
            config: self.config@,
            session_id: match self.session_id {
                Some(id) => Some(id.bits),
                None => None,
            },
            socket_override: config::maybe_text(self.socket_override),
            cols: self.cols,
            rows: self.rows,
        }
    }
}

/// Before the first session argument.
pub open spec fn no_args(shell: Option<Seq<char>>) -> SessionArgsView {
    SessionArgsView {
        config: config::default_config(shell),
        session_id: None,
        socket_override: None,
        cols: 80,
        rows: 24,
    }
}

/// A text in single quotes.
pub open spec fn quoted(s: Seq<char>) -> Seq<char> {
    seq!['\''] + s + seq!['\'']
}

/// The position of the first `=` of a text, or its length where there is none.
pub open spec fn first_equals(s: Seq<char>) -> nat
    decreases s.len(),
{
    if s.len() == 0 || s[0] == '=' {
        0
    } else {
        1 + first_equals(s.skip(1))
    }
}

/// Whether an argument is a flag that takes a value.
pub open spec fn is_flag(arg: Seq<char>) -> bool {
    ||| arg == "--session"@
    ||| arg == "--shell"@
    ||| arg == "--arg"@
    ||| arg == "--cwd"@
    ||| arg == "--env"@
    ||| arg == "--cols"@
    ||| arg == "--rows"@
    ||| arg == "--scrollback"@
    ||| arg == "--socket"@
}

impl SessionArgsView {
    /// The arguments with a session ID, given what reading the ID gave.
    pub open spec fn with_session(self, value: Seq<char>, id: Result<u128, Seq<char>>) -> Result<
        SessionArgsView,
        Seq<char>,
    > {
        match id {
            Ok(bits) => Ok(SessionArgsView { session_id: Some(bits), ..self }),
            Err(e) => Err("invalid session UUID "@ + quoted(value) + ": "@ + e),
        }
    }

    /// The arguments with a flag other than `--session` and its value.
    pub open spec fn with_flag(self, flag: Seq<char>, value: Seq<char>) -> Result<
        SessionArgsView,
        Seq<char>,
    > {
        let config = self.config;
        if flag == "--shell"@ {
            Ok(SessionArgsView { config: SessionConfigView { program: value, ..config }, ..self })
        } else if flag == "--arg"@ {
            Ok(
                SessionArgsView {
                    config: SessionConfigView { args: config.args.push(value), ..config },
                    ..self
                },
            )
        } else if flag == "--cwd"@ {
            Ok(
                SessionArgsView {
                    config: SessionConfigView {
                        working_directory: Some(encode_utf8(value)),
                        ..config
                    },
                    ..self
                },
            )
        } else if flag == "--env"@ {
            let at = first_equals(value);
            if at < value.len() {
                Ok(
                    SessionArgsView {
                        config: SessionConfigView {
                            env: config.env.push(
                                (value.take(at as int), value.skip(at as int + 1)),
                            ),
                            ..config
                        },
                        ..self
                    },
                )
            } else {
                Err("--env value must be KEY=VALUE, got "@ + quoted(value))
            }
        } else if flag == "--cols"@ {
            match text::stated_number(value, u16::MAX as nat) {
                Some(n) => Ok(SessionArgsView { cols: n as u16, ..self }),
                None => Err("invalid --cols value: "@ + quoted(value)),
            }
        } else if flag == "--rows"@ {
            match text::stated_number(value, u16::MAX as nat) {
                Some(n) => Ok(SessionArgsView { rows: n as u16, ..self }),
                None => Err("invalid --rows value: "@ + quoted(value)),
            }
        } else if flag == "--scrollback"@ {
            match text::stated_number(value, usize::MAX as nat) {
                Some(n) => Ok(
                    SessionArgsView {
                        config: SessionConfigView { max_scrollback_lines: n as usize, ..config },
                        ..self
                    },
                ),
                None => Err("invalid --scrollback value: "@ + quoted(value)),
            }
        } else if flag == "--socket"@ {
            Ok(SessionArgsView { socket_override: Some(value), ..self })
        } else {
            Err("unknown argument: "@ + quoted(flag))
        }
    }

    /// The arguments with a flag and its value.
    pub open spec fn with(self, flag: Seq<char>, value: Seq<char>) -> Result<
        SessionArgsView,
        Seq<char>,
    > {
        if flag == "--session"@ {
            self.with_session(value, ids::read_id(value))
        } else {
            self.with_flag(flag, value)
        }
    }

    /// The arguments with several more, each flag followed by its value.
    pub open spec fn with_all(self, args: Seq<Seq<char>>) -> Result<SessionArgsView, Seq<char>>
        decreases args.len(),
    {
        if args.len() == 0 {
            Ok(self)
        } else if !is_flag(args[0]) {
            Err("unknown argument: "@ + quoted(args[0]))
        } else if args.len() == 1 {
            Err(args[0] + " requires a value"@)
        } else {
            match self.with(args[0], args[1]) {
                Ok(next) => next.with_all(args.skip(2)),
                Err(e) => Err(e),
            }
        }
    }

    /// The configuration that the arguments ask for. Without a socket of its
    /// own, the session listens where its ID says.
    pub open spec fn finished(self, base: Seq<u8>) -> Result<SessionConfigView, Seq<char>> {
        match self.session_id {
            None => Err("--session <UUID> is required"@),
            Some(bits) => Ok(
                SessionConfigView {
                    socket_path: match self.socket_override {
                        Some(file) => encode_utf8(file),
                        None => sockets::socket_path(base, bits),
                    },
                    initial_size: WindowSize {
                        cols: self.cols,
                        rows: self.rows,
                        cell_width: 8,
                        cell_height: 16,
                    },
                    ..self.config
                },
            ),
        }
    }
}

/// The configuration that session arguments ask for, or how the error is shown,
/// for a user with this shell and this directory for temporary files.
pub open spec fn session_args(
    args: Seq<Seq<char>>,
    shell: Option<Seq<char>>,
    base: Seq<u8>,
) -> Result<SessionConfigView, Seq<char>> {
    match no_args(shell).with_all(args) {
        Ok(parsed) => parsed.finished(base),
        Err(e) => Err(e),
    }
}

fn with_quoted(before: &str, value: &str) -> (t: String)
    ensures
        t@ == before@ + quoted(value@),
{
    let mut t: String = copy_text(before);
    t.push('\'');
    t.append(value);
    t.push('\'');
    assert(t@ =~= before@ + quoted(value@));
    t
}

fn split_at_equals(value: &str) -> (r: Option<(String, String)>)
    ensures
        match r {
            Some((key, val)) => first_equals(value@) < value@.len() && key@ == value@.take(
                first_equals(value@) as int,
            ) && val@ == value@.skip(first_equals(value@) as int + 1),
            None => first_equals(value@) >= value@.len(),
        },
{
    let cs: Vec<char> = chars_of(value);
    let mut i: usize = 0;
    assert(cs@.skip(0) =~= cs@);
    while i < cs.len()
        invariant
            i <= cs@.len(),
            cs@ == value@,
            first_equals(value@) == i + first_equals(cs@.skip(i as int)),
        decreases cs@.len() - i,
    {
        assert(cs@.skip(i as int).skip(1) =~= cs@.skip(i + 1));
        if cs[i] == '=' {
            let key: String = string_of(slice_subrange(cs.as_slice(), 0, i));
            let val: String = string_of(slice_subrange(cs.as_slice(), i + 1, cs.len()));
            assert(key@ =~= value@.take(i as int));
            assert(val@ =~= value@.skip(i + 1));
            return Some((key, val));
        }
        i = i + 1;
    }
    None
}

fn known_flag(arg: &str) -> (known: bool)
    ensures
        known == is_flag(arg@),
{
    text_eq(arg, "--session") || text_eq(arg, "--shell") || text_eq(arg, "--arg") || text_eq(
        arg,
        "--cwd",
    ) || text_eq(arg, "--env") || text_eq(arg, "--cols") || text_eq(arg, "--rows") || text_eq(
        arg,
        "--scrollback",
    ) || text_eq(arg, "--socket")
}

/// The value of the flag at `*i`: the argument after it, to which `*i` moves.
pub fn next_arg(args: &[String], i: &mut usize, flag: &str) -> (r: Result<String, String>)
    requires
        *old(i) < usize::MAX,
    ensures
        *final(i) == *old(i) + 1,
        match r {
            Ok(value) => *final(i) < args@.len() && value@ == args@[*final(i) as int]@,
            Err(e) => *final(i) >= args@.len() && e@ == flag@ + " requires a value"@,
        },
{
    *i = *i + 1;
    if *i < args.len() {
        Ok(copy_text(args[*i].as_str()))
    } else {
        let mut e: String = copy_text(flag);
        e.append(" requires a value");
        Err(e)
    }
}

/// Whether `r`, with `args` where it is a success, is the outcome that `outcome`
/// describes.
pub open spec fn args_outcome(
    r: Result<(), String>,
    args: SessionArgsView,
    outcome: Result<SessionArgsView, Seq<char>>,
) -> bool {
    match r {
        Ok(_) => outcome == Ok::<SessionArgsView, Seq<char>>(args),
        Err(e) => outcome == Err::<SessionArgsView, Seq<char>>(e@),
    }
}

impl SessionArgs {
    /// Before the first session argument, for a user with this shell
    /// (`$SHELL`).
    pub fn new(shell: Option<String>) -> (args: SessionArgs)
        ensures
            args@ == no_args(config::maybe_text(shell)),
    {
        let args = SessionArgs {
            config: SessionConfig::default_for(shell),
            session_id: None,
            socket_override: None,
            cols: 80,
            rows: 24,
        };
        assert(args@ =~= no_args(config::maybe_text(shell)));
        args
    }

    /// Sets the session ID, given what reading it from `value` gave.
    pub fn set_session(&mut self, value: &str, id: Result<SessionId, String>) -> (r: Result<
        (),
        String,
    >)
        ensures
            args_outcome(
                r,
                final(self)@,
                old(self)@.with_session(value@, ids::parse_outcome(id)),
            ),
    {
        match id {
            Ok(id) => {
                self.session_id = Some(id);
                assert(self@ =~= SessionArgsView { session_id: Some(id.bits), ..old(self)@ });
                Ok(())
            },
            Err(shown) => {
                let mut e: String = with_quoted("invalid session UUID ", value);
                e.append(": ");
                e.append(shown.as_str());
                assert(e@ =~= "invalid session UUID "@ + quoted(value@) + ": "@ + shown@);
                Err(e)
            },
        }
    }

    /// Sets what a flag other than `--session` sets.
    pub fn set_flag(&mut self, flag: &str, value: String) -> (r: Result<(), String>)
        ensures
            args_outcome(r, final(self)@, old(self)@.with_flag(flag@, value@)),
    {
        let ghost before = self@;
        if text_eq(flag, "--shell") {
            self.config.program = value;
            assert(self@ =~= before.with_flag(flag@, value@)->Ok_0);
        } else if text_eq(flag, "--arg") {
            push_string(&mut self.config.args, value);
            assert(self@ =~= before.with_flag(flag@, value@)->Ok_0);
        } else if text_eq(flag, "--cwd") {
            self.config.working_directory = Some(UnixPath::from_text(value.as_str()));
            assert(self@ =~= before.with_flag(flag@, value@)->Ok_0);
        } else if text_eq(flag, "--env") {
            match split_at_equals(value.as_str()) {
                Some((key, val)) => {
                    let ghost earlier = self.config.env@;
                    self.config.env.push((key, val));
                    assert(config::pairs(self.config.env@) =~= config::pairs(earlier).push(
                        (key@, val@),
                    ));
                    assert(self@ =~= before.with_flag(flag@, value@)->Ok_0);
                },
                None => {
                    return Err(
                        with_quoted("--env value must be KEY=VALUE, got ", value.as_str()),
                    );
                },
            }
        } else if text_eq(flag, "--cols") {
            match parse_number(value.as_str(), u16::MAX as u64) {
                Some(n) => {
                    self.cols = n as u16;
                    assert(self@ =~= before.with_flag(flag@, value@)->Ok_0);
                },
                None => return Err(with_quoted("invalid --cols value: ", value.as_str())),
            }
        } else if text_eq(flag, "--rows") {
            match parse_number(value.as_str(), u16::MAX as u64) {
                Some(n) => {
                    self.rows = n as u16;
                    assert(self@ =~= before.with_flag(flag@, value@)->Ok_0);
                },
                None => return Err(with_quoted("invalid --rows value: ", value.as_str())),
            }
        } else if text_eq(flag, "--scrollback") {
            match parse_number(value.as_str(), usize::MAX as u64) {
                Some(n) => {
                    self.config.max_scrollback_lines = n as usize;
                    assert(self@ =~= before.with_flag(flag@, value@)->Ok_0);
                },
                None => return Err(with_quoted("invalid --scrollback value: ", value.as_str())),
            }
        } else if text_eq(flag, "--socket") {
            self.socket_override = Some(value);
            assert(self@ =~= before.with_flag(flag@, value@)->Ok_0);
        } else {
            return Err(with_quoted("unknown argument: ", flag));
        }
        Ok(())
    }

    /// The configuration that the arguments ask for, with this directory for
    /// temporary files.
    pub fn finish(self, base: &UnixPath) -> (r: Result<SessionConfig, String>)
        ensures
            config_outcome(r, self@.finished(base@)),
    {
        match self.session_id {
            None => Err(copy_text("--session <UUID> is required")),
            Some(id) => {
                let mut config: SessionConfig = self.config;
                config.socket_path = match self.socket_override {
                    Some(file) => UnixPath::from_text(file.as_str()),
                    None => socket_path_for_session(base, &id),
                };
                config.initial_size = WindowSize {
                    cols: self.cols,
                    rows: self.rows,
                    cell_width: 8,
                    cell_height: 16,
                };
                assert(config@ =~= self@.finished(base@)->Ok_0);
                Ok(config)
            },
        }
    }
}

/// Whether `r` is the outcome that `outcome` describes.
pub open spec fn config_outcome(
    r: Result<SessionConfig, String>,
    outcome: Result<SessionConfigView, Seq<char>>,
) -> bool {
    match r {
        Ok(config) => outcome == Ok::<SessionConfigView, Seq<char>>(config@),
        Err(e) => outcome == Err::<SessionConfigView, Seq<char>>(e@),
    }
}

/// Reads session arguments, for a user with this shell (`$SHELL`) and this
/// directory for temporary files.
pub fn parse_session_args(args: &[String], shell: Option<String>, base: &UnixPath) -> (r: Result<
    SessionConfig,
    String,
>)
    ensures
        config_outcome(
            r,
            session_args(text::strings(args@), config::maybe_text(shell), base@),
        ),
{
    let ghost all = text::strings(args@);
    let ghost outcome = no_args(config::maybe_text(shell)).with_all(all);
    let mut parsed = SessionArgs::new(shell);
    let mut i: usize = 0;
    assert(all.skip(0) =~= all);
    while i < args.len()
        invariant
            i <= args@.len(),
            all == text::strings(args@),
            outcome == no_args(config::maybe_text(shell)).with_all(all),
            parsed@.with_all(all.skip(i as int)) == outcome,
        decreases args@.len() - i,
    {
        let flag: &str = args[i].as_str();
        let ghost tail = all.skip(i as int);
        assert(tail[0] == flag@);
        if !known_flag(flag) {
            return Err(with_quoted("unknown argument: ", flag));
        }
        let value: String = match next_arg(args, &mut i, flag) {
            Ok(value) => value,
            Err(e) => return Err(e),
        };
        assert(tail[1] == value@);
        assert(tail.skip(2) =~= all.skip(i + 1));
        let set: Result<(), String> = if text_eq(flag, "--session") {
            let id: Result<SessionId, String> = SessionId::parse(value.as_str());
            parsed.set_session(value.as_str(), id)
        } else {
            parsed.set_flag(flag, value)
        };
        if let Err(e) = set {
            return Err(e);
        }
        i = i + 1;
    }
    assert(all.skip(i as int) =~= Seq::<Seq<char>>::empty());
    parsed.finish(base)
}

} // verus!
