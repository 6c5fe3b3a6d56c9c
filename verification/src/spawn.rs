//! Starting a host process for a new session.

use vstd::prelude::*;
use vstd::slice::*;
use vstd::string::*;
use vstd::utf8::*;

use crate::args;
use crate::args::SessionArgsView;
use crate::config;
use crate::config::SessionConfigView;
use crate::ids;
use crate::ids::SessionId;
use crate::path;
use crate::path::UnixPath;
use crate::protocol::WindowSize;
use crate::sockets;
use crate::text;
use crate::text::text_eq;

verus! {

/// Environment variables, each with one value.
pub struct Environment {
    vars: Vec<(String, String)>,
}

impl View for Environment {
    type V = Seq<(Seq<char>, Seq<char>)>;

    closed spec fn view(&self) -> Seq<(Seq<char>, Seq<char>)> {
        config::pairs(self.vars@)
    }
}

/// Whether no variable stands twice in a list.
pub open spec fn distinct_names(vars: Seq<(Seq<char>, Seq<char>)>) -> bool {
    forall|i: int, j: int|
        0 <= i < j < vars.len() ==> (#[trigger] vars[i]).0 != (#[trigger] vars[j]).0
}

/// The position of a variable in a list, or its length where it is not there.
pub open spec fn name_position(vars: Seq<(Seq<char>, Seq<char>)>, name: Seq<char>) -> nat
    decreases vars.len(),
{
    if vars.len() == 0 || vars[0].0 == name {
        0
    } else {
        1 + name_position(vars.skip(1), name)
    }
}

/// A list with a variable set: in its place where it is there, and otherwise at
/// the end.
pub open spec fn with_var(
    vars: Seq<(Seq<char>, Seq<char>)>,
    name: Seq<char>,
    value: Seq<char>,
) -> Seq<(Seq<char>, Seq<char>)> {
    if name_position(vars, name) < vars.len() {
        vars.update(name_position(vars, name) as int, (name, value))
    } else {
        vars.push((name, value))
    }
}

pub proof fn lemma_name_position(vars: Seq<(Seq<char>, Seq<char>)>, name: Seq<char>)
    ensures
        name_position(vars, name) <= vars.len(),
        name_position(vars, name) < vars.len() ==> vars[name_position(vars, name) as int].0 == name,
        forall|i: int|
            0 <= i < name_position(vars, name) ==> (#[trigger] vars[i]).0 != name,
    decreases vars.len(),
{
    if vars.len() > 0 && vars[0].0 != name {
        let later = vars.skip(1);
        lemma_name_position(later, name);
        assert forall|i: int| 0 <= i < name_position(vars, name) implies (#[trigger] vars[i]).0
            != name by {
            if i > 0 {
                assert(later[i - 1] == vars[i]);
            }
        }
    }
}

/// Setting a variable leaves no variable twice in a list.
pub proof fn law_setting_keeps_names_distinct(
    vars: Seq<(Seq<char>, Seq<char>)>,
    name: Seq<char>,
    value: Seq<char>,
)
    requires
        distinct_names(vars),
    ensures
        distinct_names(with_var(vars, name, value)),
        with_var(vars, name, value).contains((name, value)),
{
    lemma_name_position(vars, name);
    let at = name_position(vars, name) as int;
    let set = with_var(vars, name, value);
    assert(set[at] == (name, value));
}

impl Environment {
    /// No variable stands twice.
    #[verifier::type_invariant]
    spec fn wf(&self) -> bool {
        distinct_names(config::pairs(self.vars@))
    }

    /// No variables.
    pub fn new() -> (env: Environment)
        ensures
            env@ == Seq::<(Seq<char>, Seq<char>)>::empty(),
    {
        let env = Environment { vars: Vec::new() };
        assert(env@ =~= Seq::<(Seq<char>, Seq<char>)>::empty());
        env
    }

    /// The variables with their values.
    pub fn vars(&self) -> (vars: &[(String, String)])
        ensures
            config::pairs(vars@) == self@,
            distinct_names(self@),
    {
        proof {
            use_type_invariant(self);
        }
        self.vars.as_slice()
    }

    /// Sets a variable.
    pub fn insert(&mut self, name: String, value: String)
        ensures
            final(self)@ == with_var(old(self)@, name@, value@),
            distinct_names(final(self)@),
    {
        let ghost all = self@;
        proof {
            use_type_invariant(&*self);
            law_setting_keeps_names_distinct(all, name@, value@);
        }
        let mut vars: Vec<(String, String)> = Vec::new();
        std::mem::swap(&mut self.vars, &mut vars);
        set_var(&mut vars, name, value);
        self.vars = vars;
    }
}

fn set_var(vars: &mut Vec<(String, String)>, name: String, value: String)
    ensures
        config::pairs(final(vars)@) == with_var(config::pairs(old(vars)@), name@, value@),
{
    let ghost all = config::pairs(vars@);
    let ghost pair = (name@, value@);
    let mut i: usize = 0;
    assert(all.skip(0) =~= all);
    while i < vars.len()
        invariant
            i <= vars@.len(),
            all == config::pairs(vars@),
            all == config::pairs(old(vars)@),
            pair == (name@, value@),
            name_position(all, name@) == i + name_position(all.skip(i as int), name@),
        decreases vars@.len() - i,
    {
        assert(all.skip(i as int)[0] == (vars@[i as int].0@, vars@[i as int].1@));
        assert(all.skip(i as int).skip(1) =~= all.skip(i + 1));
        if text_eq(vars[i].0.as_str(), name.as_str()) {
            vars.set(i, (name, value));
            assert(config::pairs(vars@) =~= all.update(i as int, pair));
            return;
        }
        i = i + 1;
    }
    vars.push((name, value));
    assert(config::pairs(vars@) =~= all.push(pair));
}

/// Configuration for a new host process.
pub struct SpawnConfig {
    pub session_id: SessionId,
    /// Shell program to run. `None` means the default one.
    pub shell_program: Option<String>,
    pub shell_args: Vec<String>,
    pub working_directory: Option<UnixPath>,
    pub env: Environment,
}

/// What a [`SpawnConfig`] says.
#[verifier::ext_equal]
pub struct SpawnConfigView {
    pub session_id: u128,
    pub shell_program: Option<Seq<char>>,
    pub shell_args: Seq<Seq<char>>,
    pub working_directory: Option<Seq<u8>>,
    pub env: Seq<(Seq<char>, Seq<char>)>,
}

impl View for SpawnConfig {
    type V = SpawnConfigView;

    open spec fn view(&self) -> SpawnConfigView {
        SpawnConfigView {
            session_id: self.session_id.bits,
            shell_program: config::maybe_text(self.shell_program),
            shell_args: text::strings(self.shell_args@),
            working_directory: config::maybe_path(self.working_directory),
            env: self.env@,
        }
    }
}

/// Texts as byte strings.
pub open spec fn encoded(ts: Seq<Seq<char>>) -> Seq<Seq<u8>> {
    Seq::new(ts.len(), |i: int| encode_utf8(ts[i]))
}

/// Each shell argument after a flag.
pub open spec fn flagged_args(shell_args: Seq<Seq<char>>) -> Seq<Seq<char>>
    decreases shell_args.len(),
{
    if shell_args.len() == 0 {
        seq![]
    } else {
        flagged_args(shell_args.drop_last()) + seq!["--arg"@, shell_args.last()]
    }
}

/// The arguments of a host process but for the working directory.
pub open spec fn leading_args(c: SpawnConfigView) -> Seq<Seq<char>> {
    seq!["--session"@, ids::id_text(c.session_id)] + match c.shell_program {
        Some(shell) => seq!["--shell"@, shell],
        None => seq![],
    } + flagged_args(c.shell_args)
}

/// The arguments of a host process, as byte strings.
pub open spec fn host_args_of(c: SpawnConfigView) -> Seq<Seq<u8>> {
    encoded(leading_args(c)) + match c.working_directory {
        Some(dir) => seq![encode_utf8("--cwd"@), dir],
        None => seq![],
    }
}

/// Several byte strings.
pub open spec fn byte_strings(v: Seq<Vec<u8>>) -> Seq<Seq<u8>> {
    Seq::new(v.len(), |i: int| v[i]@)
}

fn push_arg(out: &mut Vec<Vec<u8>>, arg: &[u8])
    ensures
        byte_strings(final(out)@) == byte_strings(old(out)@).push(arg@),
{
    let ghost before = out@;
    out.push(slice_to_vec(arg));
    assert(byte_strings(out@) =~= byte_strings(before).push(arg@));
}

/// The arguments that start a host process for a session.
pub fn host_args(c: &SpawnConfig) -> (args: Vec<Vec<u8>>)
    ensures
        byte_strings(args@) == host_args_of(c@),
{
    let mut out: Vec<Vec<u8>> = Vec::new();
    assert(byte_strings(out@) =~= Seq::<Seq<u8>>::empty());
    push_arg(&mut out, "--session".as_bytes());
    push_arg(&mut out, c.session_id.text().as_str().as_bytes());
    if let Some(shell) = &c.shell_program {
        push_arg(&mut out, "--shell".as_bytes());
        push_arg(&mut out, shell.as_str().as_bytes());
    }
    let ghost head = seq!["--session"@, ids::id_text(c@.session_id)] + match c@.shell_program {
        Some(shell) => seq!["--shell"@, shell],
        None => seq![],
    };
    let ghost wanted = text::strings(c.shell_args@);
    assert(wanted.take(0) =~= Seq::<Seq<char>>::empty());
    assert(byte_strings(out@) =~= encoded(head + flagged_args(wanted.take(0))));
    let mut i: usize = 0;
    while i < c.shell_args.len()
        invariant
            i <= c.shell_args@.len(),
            wanted == text::strings(c.shell_args@),
            byte_strings(out@) == encoded(head + flagged_args(wanted.take(i as int))),
        decreases c.shell_args@.len() - i,
    {
        let ghost before = head + flagged_args(wanted.take(i as int));
        push_arg(&mut out, "--arg".as_bytes());
        push_arg(&mut out, c.shell_args[i].as_str().as_bytes());
        assert(wanted.take(i + 1).drop_last() =~= wanted.take(i as int));
        assert(head + flagged_args(wanted.take(i + 1)) =~= before.push("--arg"@).push(
            wanted[i as int],
        ));
        assert(byte_strings(out@) =~= encoded(head + flagged_args(wanted.take(i + 1))));
        i = i + 1;
    }
    assert(wanted.take(i as int) =~= wanted);
    assert(byte_strings(out@) == encoded(leading_args(c@)));
    if let Some(dir) = &c.working_directory {
        push_arg(&mut out, "--cwd".as_bytes());
        push_arg(&mut out, dir.bytes.as_slice());
    }
    assert(byte_strings(out@) =~= host_args_of(c@));
    out
}

/// The host program that lies beside another program, in this directory.
pub fn host_candidate(dir: &UnixPath) -> (file: UnixPath)
    ensures
        file@ == path::joined(dir@, encode_utf8("pty-host"@)),
{
    dir.join("pty-host".as_bytes())
}

/// The host program: the one that was found beside this program, and otherwise
/// the one that the search path leads to.
pub fn host_binary(found: Option<UnixPath>) -> (file: UnixPath)
    ensures
        file@ == match found {
            Some(f) => f@,
            None => encode_utf8("pty-host"@),
        },
{
    match found {
        Some(file) => file,
        None => UnixPath::from_text("pty-host"),
    }
}

// ---------------------------------------------------------------------------
// A host process reads back what it was asked for
// ---------------------------------------------------------------------------

/// The arguments of a host process as texts, for a working directory whose name
/// is a text.
pub open spec fn host_texts(c: SpawnConfigView, cwd: Option<Seq<char>>) -> Seq<Seq<char>> {
    leading_args(c) + match cwd {
        Some(dir) => seq!["--cwd"@, dir],
        None => seq![],
    }
}

proof fn lemma_flags()
    ensures
        "--shell"@ != "--session"@,
        "--arg"@ != "--session"@,
        "--arg"@ != "--shell"@,
        "--cwd"@ != "--session"@,
        "--cwd"@ != "--shell"@,
        "--cwd"@ != "--arg"@,
{
    reveal_strlit("--session");
    reveal_strlit("--shell");
    reveal_strlit("--arg");
    reveal_strlit("--cwd");
    assert("--shell"@.len() == 7);
    assert("--session"@.len() == 9);
    assert("--arg"@[2] == 'a');
    assert("--cwd"@[2] == 'c');
}

proof fn lemma_next(s: SessionArgsView, flag: Seq<char>, value: Seq<char>, rest: Seq<Seq<char>>)
    requires
        args::is_flag(flag),
    ensures
        s.with_all(seq![flag, value] + rest) == match s.with(flag, value) {
            Ok(next) => next.with_all(rest),
            Err(e) => Err(e),
        },
{
    assert((seq![flag, value] + rest).skip(2) =~= rest);
}

proof fn lemma_args_read_back(s: SessionArgsView, shell_args: Seq<Seq<char>>, rest: Seq<Seq<char>>)
    ensures
        s.with_all(flagged_args(shell_args) + rest) == (SessionArgsView {
            config: SessionConfigView { args: s.config.args + shell_args, ..s.config },
            ..s
        }).with_all(rest),
    decreases shell_args.len(),
{
    if shell_args.len() == 0 {
        assert(flagged_args(shell_args) + rest =~= rest);
        assert(s.config.args + shell_args =~= s.config.args);
    } else {
        let earlier = shell_args.drop_last();
        let last = shell_args.last();
        let tail = seq!["--arg"@, last] + rest;
        assert(flagged_args(shell_args) + rest =~= flagged_args(earlier) + tail);
        lemma_args_read_back(s, earlier, tail);
        let mid = SessionArgsView {
            config: SessionConfigView { args: s.config.args + earlier, ..s.config },
            ..s
        };
        lemma_flags();
        lemma_next(mid, "--arg"@, last, rest);
        assert((s.config.args + earlier).push(last) =~= s.config.args + shell_args);
    }
}

/// A host process that is started for a session runs that session: its
/// arguments read back as the same ID, shell, arguments and working directory,
/// with defaults for the rest, and it listens on the socket of the ID.
pub proof fn law_host_args_read_back(
    c: SpawnConfigView,
    cwd: Option<Seq<char>>,
    shell: Option<Seq<char>>,
    base: Seq<u8>,
)
    ensures
        args::session_args(host_texts(c, cwd), shell, base) == Ok::<SessionConfigView, Seq<char>>(
            (SessionConfigView {
                program: match c.shell_program {
                    Some(program) => program,
                    None => config::default_shell(shell),
                },
                args: c.shell_args,
                env: seq![],
                working_directory: match cwd {
                    Some(dir) => Some(encode_utf8(dir)),
                    None => None,
                },
                initial_size: WindowSize { cols: 80, rows: 24, cell_width: 8, cell_height: 16 },
                socket_path: sockets::socket_path(base, c.session_id),
                max_scrollback_lines: 10_000,
            }),
        ),
        ({
            let same_cwd = c.working_directory == match cwd {
                Some(dir) => Some(encode_utf8(dir)),
                None => None,
            };
            same_cwd ==> host_args_of(c) == encoded(host_texts(c, cwd))
        }),
{
    let start = args::no_args(shell);
    let id = ids::id_text(c.session_id);
    ids::law_id_text_reads_back(c.session_id);
    lemma_flags();
    let cwd_args = match cwd {
        Some(dir) => seq!["--cwd"@, dir],
        None => seq![],
    };
    let shell_flags = match c.shell_program {
        Some(program) => seq!["--shell"@, program],
        None => seq![],
    };
    let after_shell = flagged_args(c.shell_args) + cwd_args;
    let after_session = shell_flags + after_shell;
    assert(host_texts(c, cwd) =~= seq!["--session"@, id] + after_session);
    lemma_next(start, "--session"@, id, after_session);
    let with_id = SessionArgsView { session_id: Some(c.session_id), ..start };
    assert(start.with_all(host_texts(c, cwd)) == with_id.with_all(after_session));
    let program = match c.shell_program {
        Some(program) => program,
        None => config::default_shell(shell),
    };
    let with_shell = SessionArgsView {
        config: SessionConfigView { program, ..with_id.config },
        ..with_id
    };
    match c.shell_program {
        Some(p) => {
            lemma_next(with_id, "--shell"@, p, after_shell);
        },
        None => {
            assert(after_session =~= after_shell);
        },
    }
    assert(with_id.with_all(after_session) == with_shell.with_all(after_shell));
    lemma_args_read_back(with_shell, c.shell_args, cwd_args);
    assert(with_shell.config.args + c.shell_args =~= c.shell_args);
    let with_args = SessionArgsView {
        config: SessionConfigView { args: c.shell_args, ..with_shell.config },
        ..with_shell
    };
    assert(with_shell.with_all(after_shell) == with_args.with_all(cwd_args));
    if let Some(dir) = cwd {
        assert(cwd_args + Seq::<Seq<char>>::empty() =~= cwd_args);
        lemma_next(with_args, "--cwd"@, dir, seq![]);
    }
    let same_cwd = c.working_directory == match cwd {
        Some(dir) => Some(encode_utf8(dir)),
        None => None,
    };
    if same_cwd {
        assert(host_args_of(c) =~= encoded(host_texts(c, cwd)));
    }
}

/// The words that select another command than running a session.
pub open spec fn selects_command(word: Seq<char>) -> bool {
    word == "--help"@ || word == "-h"@ || word == "--list"@ || word == "--kill"@ || word
        == "--attach"@
}

proof fn lemma_absent(ts: Seq<Seq<char>>, word: Seq<char>)
    requires
        forall|i: int| 0 <= i < ts.len() ==> #[trigger] ts[i] != word,
    ensures
        args::position(ts, word) < 0,
    decreases ts.len(),
{
    if ts.len() > 0 {
        let later = ts.skip(1);
        assert forall|i: int| 0 <= i < later.len() implies #[trigger] later[i] != word by {
            assert(later[i] == ts[i + 1]);
        }
        assert(ts[0] != word);
        lemma_absent(later, word);
    }
}

/// A command line on which no word selects another command runs a session. The
/// words of a host process's command line are its flags and what its
/// configuration holds, so a host runs a session unless the program's name, the
/// shell, a shell argument or the working directory is such a word.
pub proof fn law_host_processes_run_sessions(
    program: Seq<char>,
    c: SpawnConfigView,
    cwd: Option<Seq<char>>,
)
    requires
        !selects_command(program),
        c.shell_program matches Some(shell) ==> !selects_command(shell),
        forall|i: int| 0 <= i < c.shell_args.len() ==> !selects_command(#[trigger] c.shell_args[i]),
        cwd matches Some(dir) ==> !selects_command(dir),
    ensures
        args::command_of(seq![program] + host_texts(c, cwd)) == args::CommandView::Run,
{
    let ts = seq![program] + host_texts(c, cwd);
    ids::lemma_id_characters(c.session_id);
    reveal_strlit("--help");
    reveal_strlit("-h");
    reveal_strlit("--list");
    reveal_strlit("--kill");
    reveal_strlit("--attach");
    reveal_strlit("--session");
    reveal_strlit("--shell");
    reveal_strlit("--arg");
    reveal_strlit("--cwd");
    assert("--session"@.len() == 9 && "--shell"@.len() == 7 && "--arg"@.len() == 5);
    assert("--cwd"@.len() == 5);
    assert(!selects_command("--session"@));
    assert("--attach"@.len() == 8);
    assert(!selects_command("--shell"@));
    assert(!selects_command("--arg"@));
    assert(!selects_command("--cwd"@));
    assert(!selects_command(ids::id_text(c.session_id)));
    lemma_flagged_words(c.shell_args);
    let flagged = flagged_args(c.shell_args);
    assert forall|i: int| 0 <= i < ts.len() implies !selects_command(#[trigger] ts[i]) by {
        let head = 3 + if c.shell_program is Some {
            2int
        } else {
            0int
        };
        if head <= i < head + flagged.len() {
            assert(ts[i] == flagged[i - head]);
        }
    }
    lemma_absent(ts, "--help"@);
    lemma_absent(ts, "-h"@);
    lemma_absent(ts, "--list"@);
    lemma_absent(ts, "--kill"@);
    lemma_absent(ts, "--attach"@);
}

proof fn lemma_flagged_words(shell_args: Seq<Seq<char>>)
    requires
        forall|i: int| 0 <= i < shell_args.len() ==> !selects_command(#[trigger] shell_args[i]),
        !selects_command("--arg"@),
    ensures
        forall|i: int|
            0 <= i < flagged_args(shell_args).len() ==> !selects_command(
                #[trigger] flagged_args(shell_args)[i],
            ),
    decreases shell_args.len(),
{
    if shell_args.len() > 0 {
        let earlier = shell_args.drop_last();
        assert forall|i: int| 0 <= i < earlier.len() implies !selects_command(
            #[trigger] earlier[i],
        ) by {
            assert(earlier[i] == shell_args[i]);
        }
        lemma_flagged_words(earlier);
        assert(!selects_command(shell_args.last()));
        let all = flagged_args(shell_args);
        assert forall|i: int| 0 <= i < all.len() implies !selects_command(#[trigger] all[i]) by {
            if i < flagged_args(earlier).len() {
                assert(all[i] == flagged_args(earlier)[i]);
            }
        }
    }
}

} // verus!
