//! What holds of the command line.

use vstd::prelude::*;
use vstd::utf8::*;

use crate::args;
use crate::args::{
    choose_command, find_value, next_arg, parse_session_args, Command, SessionArgs, SessionArgsView,
};
use crate::config;
use crate::config::{SessionConfig, SessionConfigView};
use crate::ids;
use crate::path::UnixPath;
use crate::path_laws;
use crate::sockets;
use crate::text;

verus! {

// ---------------------------------------------------------------------------
// Which command
// ---------------------------------------------------------------------------

/// Whether a word stands somewhere on a command line.
pub open spec fn says(words: &[String], word: Seq<char>) -> bool {
    exists|i: int| 0 <= i < words@.len() && (#[trigger] words@[i])@ == word
}

/// Whether `value` is what follows the first `word` of a command line, where
/// anything follows it.
pub open spec fn follows(words: &[String], word: Seq<char>, value: Option<String>) -> bool {
    exists|i: int|
        {
            &&& 0 <= i < words@.len()
            &&& (#[trigger] words@[i])@ == word
            &&& forall|j: int| 0 <= j < i ==> (#[trigger] words@[j])@ != word
            &&& if i + 1 < words@.len() {
                value matches Some(v) && v@ == words@[i + 1]@
            } else {
                value is None
            }
        }
}

proof fn lemma_position(words: &[String], word: Seq<char>, value: Option<String>)
    ensures
        (args::position(text::strings(words@), word) >= 0) == says(words, word),
        says(words, word) && config::maybe_text(value) == args::argument(
            text::strings(words@),
            args::position(text::strings(words@), word) + 1,
        ) ==> follows(words, word, value),
{
    let all = text::strings(words@);
    path_laws::lemma_first_position(all, word);
    let at = args::position(all, word);
    if at >= 0 {
        assert(all[at] == words@[at]@);
        assert forall|j: int| 0 <= j < at implies (#[trigger] words@[j])@ != word by {
            assert(all[j] == words@[j]@);
        }
    } else {
        assert forall|j: int| 0 <= j < words@.len() implies (#[trigger] words@[j])@ != word by {
            assert(all[j] == words@[j]@);
        }
    }
}

/// A command is selected by its word, wherever the word stands: help first of
/// all, then the list, then a kill, then an attach; a session is run where none
/// of these words stands. The ID to kill or attach to is what follows the first
/// such word.
pub proof fn law_words_select_commands(words: &[String], command: Command)
    requires
        call_ensures(choose_command, (words,), command),
    ensures
        (command is Help) == (says(words, "--help"@) || says(words, "-h"@)),
        !(command is Help) ==> (command is List) == says(words, "--list"@),
        !(command is Help) && !(command is List) ==> (command is Kill) == says(words, "--kill"@),
        !(command is Help) && !(command is List) && !(command is Kill) ==> (command is Attach)
            == says(words, "--attach"@),
        command matches Command::Kill(id) ==> follows(words, "--kill"@, id),
        command matches Command::Attach(id) ==> follows(words, "--attach"@, id),
{
    lemma_position(words, "--help"@, None);
    lemma_position(words, "-h"@, None);
    lemma_position(words, "--list"@, None);
    let id = match command {
        Command::Kill(id) => id,
        Command::Attach(id) => id,
        _ => None,
    };
    lemma_position(words, "--kill"@, id);
    lemma_position(words, "--attach"@, id);
}

/// A value is found exactly where its flag stands and something follows it, and
/// it is what follows the first one.
pub proof fn law_values_follow_flags(words: &[String], flag: &str, value: Option<String>)
    requires
        call_ensures(find_value, (words, flag), value),
    ensures
        says(words, flag@) ==> follows(words, flag@, value),
        !says(words, flag@) ==> value is None,
{
    lemma_position(words, flag@, value);
}

/// Taking the next argument moves on by one, and gives the argument there,
/// whatever it is; past the end it tells which flag lacks a value.
pub proof fn law_next_argument(
    words: &[String],
    i: &mut usize,
    flag: &str,
    r: Result<String, String>,
)
    requires
        *old(i) < usize::MAX,
        call_ensures(next_arg, (words, i, flag), r),
    ensures
        *final(i) == *old(i) + 1,
        *old(i) + 1 < words@.len() ==> (r matches Ok(value) && value@ == words@[*old(i) + 1]@),
        *old(i) + 1 >= words@.len() ==> (r matches Err(e) && e@ == flag@ + " requires a value"@),
{
}

// ---------------------------------------------------------------------------
// Single flags
// ---------------------------------------------------------------------------

proof fn lemma_flags_differ()
    ensures
        "--session"@.len() == 9,
        "--shell"@.len() == 7,
        "--arg"@.len() == 5,
        "--cwd"@.len() == 5,
        "--env"@.len() == 5,
        "--cols"@.len() == 6,
        "--rows"@.len() == 6,
        "--scrollback"@.len() == 12,
        "--socket"@.len() == 8,
        "--arg"@ != "--cwd"@,
        "--arg"@ != "--env"@,
        "--cwd"@ != "--env"@,
        "--cols"@ != "--rows"@,
{
    reveal_strlit("--session");
    reveal_strlit("--shell");
    reveal_strlit("--arg");
    reveal_strlit("--cwd");
    reveal_strlit("--env");
    reveal_strlit("--cols");
    reveal_strlit("--rows");
    reveal_strlit("--scrollback");
    reveal_strlit("--socket");
    assert("--arg"@[2] == 'a');
    assert("--cwd"@[2] == 'c');
    assert("--env"@[2] == 'e');
    assert("--cols"@[2] == 'c');
    assert("--rows"@[2] == 'r');
}

/// Whether a text is a name and a value with the first equals sign between them.
pub open spec fn is_setting(t: Seq<char>, name: Seq<char>, value: Seq<char>) -> bool {
    t == name + seq!['='] + value && !name.contains('=')
}

proof fn lemma_first_equals(t: Seq<char>)
    ensures
        args::first_equals(t) <= t.len(),
        args::first_equals(t) < t.len() ==> t[args::first_equals(t) as int] == '=',
        (args::first_equals(t) < t.len()) == t.contains('='),
        !t.take(args::first_equals(t) as int).contains('='),
    decreases t.len(),
{
    let at = args::first_equals(t);
    if t.len() > 0 && t[0] != '=' {
        let later = t.skip(1);
        lemma_first_equals(later);
        if at < t.len() {
            assert(t[at as int] == later[at - 1]);
        }
        assert(later.contains('=') == t.contains('=')) by {
            if t.contains('=') {
                let i = choose|i: int| 0 <= i < t.len() && t[i] == '=';
                assert(later[i - 1] == '=');
            }
            if later.contains('=') {
                let i = choose|i: int| 0 <= i < later.len() && later[i] == '=';
                assert(t[i + 1] == '=');
            }
        }
        let head = t.take(at as int);
        if head.contains('=') {
            let i = choose|i: int| 0 <= i < head.len() && head[i] == '=';
            assert(later.take(at - 1)[i - 1] == '=');
        }
    } else if t.len() > 0 {
        assert(t.contains('='));
    }
}

/// The pair that a setting of an environment variable makes.
pub open spec fn sets(t: Seq<char>, pair: (Seq<char>, Seq<char>)) -> bool {
    is_setting(t, pair.0, pair.1)
}

/// Each flag sets its own setting and leaves all others as they are.
pub proof fn law_each_flag_sets_its_own_setting(
    a: SessionArgsView,
    flag: Seq<char>,
    value: Seq<char>,
    b: SessionArgsView,
)
    requires
        a.with(flag, value) == Ok::<SessionArgsView, Seq<char>>(b),
    ensures
        if flag == "--session"@ {
            ids::read_id(value) == Ok::<u128, Seq<char>>(b.session_id->0) && b.session_id is Some
        } else {
            b.session_id == a.session_id
        },
        if flag == "--socket"@ {
            b.socket_override == Some(value)
        } else {
            b.socket_override == a.socket_override
        },
        if flag == "--cols"@ {
            text::stated_number(value, 65535) == Some(b.cols as nat)
        } else {
            b.cols == a.cols
        },
        if flag == "--rows"@ {
            text::stated_number(value, 65535) == Some(b.rows as nat)
        } else {
            b.rows == a.rows
        },
        if flag == "--scrollback"@ {
            text::stated_number(value, usize::MAX as nat) == Some(
                b.config.max_scrollback_lines as nat,
            )
        } else {
            b.config.max_scrollback_lines == a.config.max_scrollback_lines
        },
        if flag == "--shell"@ {
            b.config.program == value
        } else {
            b.config.program == a.config.program
        },
        if flag == "--arg"@ {
            b.config.args == a.config.args.push(value)
        } else {
            b.config.args == a.config.args
        },
        if flag == "--cwd"@ {
            b.config.working_directory == Some(encode_utf8(value))
        } else {
            b.config.working_directory == a.config.working_directory
        },
        if flag == "--env"@ {
            b.config.env.len() == a.config.env.len() + 1 && b.config.env.drop_last()
                == a.config.env && sets(value, b.config.env.last())
        } else {
            b.config.env == a.config.env
        },
        b.config.initial_size == a.config.initial_size,
        b.config.socket_path == a.config.socket_path,
{
    lemma_flags_differ();
    if flag == "--env"@ {
        lemma_first_equals(value);
        let at = args::first_equals(value) as int;
        assert(value.take(at) + seq!['='] + value.skip(at + 1) =~= value);
        assert(b.config.env.drop_last() =~= a.config.env);
    }
}

/// Whether a flag takes a value: it is one of the nine, and the value is one that
/// it can have.
pub open spec fn takes(flag: Seq<char>, value: Seq<char>) -> bool {
    ||| flag == "--shell"@
    ||| flag == "--arg"@
    ||| flag == "--cwd"@
    ||| flag == "--socket"@
    ||| flag == "--session"@ && ids::stated_uuid(value) is Some
    ||| flag == "--env"@ && value.contains('=')
    ||| flag == "--cols"@ && text::stated_number(value, 65535) is Some
    ||| flag == "--rows"@ && text::stated_number(value, 65535) is Some
    ||| flag == "--scrollback"@ && text::stated_number(value, usize::MAX as nat) is Some
}

/// A value in single quotes after some words.
pub open spec fn about(words: Seq<char>, value: Seq<char>) -> Seq<char> {
    words + seq!['\''] + value + seq!['\'']
}

/// A flag is accepted exactly where it takes its value, whatever was given before
/// it; and an error tells of the flag and the value.
pub proof fn law_flags_take_or_refuse_values(
    a: SessionArgsView,
    flag: Seq<char>,
    value: Seq<char>,
)
    ensures
        a.with(flag, value) is Ok == takes(flag, value),
        a.with(flag, value) matches Err(e) ==> e == if flag == "--session"@ {
            about("invalid session UUID "@, value) + ": "@ + ids::uuid_error(value)
        } else if flag == "--env"@ {
            about("--env value must be KEY=VALUE, got "@, value)
        } else if flag == "--cols"@ {
            about("invalid --cols value: "@, value)
        } else if flag == "--rows"@ {
            about("invalid --rows value: "@, value)
        } else if flag == "--scrollback"@ {
            about("invalid --scrollback value: "@, value)
        } else {
            about("unknown argument: "@, flag)
        },
{
    lemma_flags_differ();
    lemma_first_equals(value);
    assert forall|w: Seq<char>, v: Seq<char>| #[trigger] about(w, v) == w + args::quoted(v) by {
        assert(about(w, v) =~= w + args::quoted(v));
    }
    assert(about("invalid session UUID "@, value) == "invalid session UUID "@ + args::quoted(
        value,
    ));
    assert(about("--env value must be KEY=VALUE, got "@, value)
        == "--env value must be KEY=VALUE, got "@ + args::quoted(value));
    assert(about("invalid --cols value: "@, value) == "invalid --cols value: "@ + args::quoted(
        value,
    ));
    assert(about("invalid --rows value: "@, value) == "invalid --rows value: "@ + args::quoted(
        value,
    ));
    assert(about("invalid --scrollback value: "@, value) == "invalid --scrollback value: "@
        + args::quoted(value));
    assert(about("unknown argument: "@, flag) == "unknown argument: "@ + args::quoted(flag));
}

/// Flags for different settings may come in either order.
pub proof fn law_flags_commute(
    a: SessionArgsView,
    f: Seq<char>,
    v: Seq<char>,
    g: Seq<char>,
    w: Seq<char>,
    b: SessionArgsView,
    c: SessionArgsView,
)
    requires
        f != g,
        a.with(f, v) == Ok::<SessionArgsView, Seq<char>>(b),
        b.with(g, w) == Ok::<SessionArgsView, Seq<char>>(c),
    ensures
        a.with(g, w) is Ok,
        a.with(g, w)->Ok_0.with(f, v) == Ok::<SessionArgsView, Seq<char>>(c),
{
    law_flags_take_or_refuse_values(a, f, v);
    law_flags_take_or_refuse_values(b, g, w);
    law_flags_take_or_refuse_values(a, g, w);
    let d = a.with(g, w)->Ok_0;
    law_flags_take_or_refuse_values(d, f, v);
    let e = d.with(f, v)->Ok_0;
    law_each_flag_sets_its_own_setting(a, f, v, b);
    law_each_flag_sets_its_own_setting(b, g, w, c);
    law_each_flag_sets_its_own_setting(a, g, w, d);
    law_each_flag_sets_its_own_setting(d, f, v, e);
    lemma_flags_differ();
    assert(e.config =~= c.config);
    assert(e =~= c);
}

/// A flag that holds one setting may be given again: the later value counts, and
/// nothing is left of the earlier one.
pub proof fn law_later_flags_replace_earlier_ones(
    a: SessionArgsView,
    flag: Seq<char>,
    v: Seq<char>,
    w: Seq<char>,
    b: SessionArgsView,
)
    requires
        flag != "--arg"@,
        flag != "--env"@,
        a.with(flag, v) == Ok::<SessionArgsView, Seq<char>>(b),
    ensures
        b.with(flag, w) == a.with(flag, w),
{
    lemma_flags_differ();
    if let Ok(c) = a.with(flag, w) {
        let d = b.with(flag, w)->Ok_0;
        law_flags_take_or_refuse_values(a, flag, w);
        law_flags_take_or_refuse_values(b, flag, w);
        law_each_flag_sets_its_own_setting(a, flag, v, b);
        law_each_flag_sets_its_own_setting(a, flag, w, c);
        law_each_flag_sets_its_own_setting(b, flag, w, d);
        assert(c.config =~= d.config);
        assert(c =~= d);
    } else {
        law_flags_take_or_refuse_values(a, flag, w);
        law_flags_take_or_refuse_values(b, flag, w);
    }
}

/// Setting a flag other than `--session` sets its own setting in place and leaves
/// all others as they are.
pub proof fn law_set_flag(
    s: &mut SessionArgs,
    flag: &str,
    value: String,
    r: Result<(), String>,
)
    requires
        flag@ != "--session"@,
        call_ensures(SessionArgs::set_flag, (s, flag, value), r),
    ensures
        r is Ok == takes(flag@, value@),
        r is Ok ==> {
            let (a, b) = (old(s)@, final(s)@);
            &&& b.session_id == a.session_id
            &&& b.cols == a.cols || (flag@ == "--cols"@ && text::stated_number(value@, 65535)
                == Some(b.cols as nat))
            &&& b.rows == a.rows || (flag@ == "--rows"@ && text::stated_number(value@, 65535)
                == Some(b.rows as nat))
            &&& b.socket_override == a.socket_override || (flag@ == "--socket"@
                && b.socket_override == Some(value@))
            &&& b.config.program == a.config.program || (flag@ == "--shell"@ && b.config.program
                == value@)
            &&& b.config.args == a.config.args || (flag@ == "--arg"@ && b.config.args
                == a.config.args.push(value@))
            &&& flag@ == "--cols"@ ==> text::stated_number(value@, 65535) == Some(b.cols as nat)
            &&& flag@ == "--rows"@ ==> text::stated_number(value@, 65535) == Some(b.rows as nat)
            &&& flag@ == "--arg"@ ==> b.config.args == a.config.args.push(value@)
            &&& flag@ == "--shell"@ ==> b.config.program == value@
            &&& flag@ == "--socket"@ ==> b.socket_override == Some(value@)
            &&& flag@ == "--cwd"@ ==> b.config.working_directory == Some(encode_utf8(value@))
        },
{
    let (a, b) = (old(s)@, final(s)@);
    law_flags_take_or_refuse_values(a, flag@, value@);
    if r is Ok {
        law_each_flag_sets_its_own_setting(a, flag@, value@, b);
    }
}

// ---------------------------------------------------------------------------
// Whole command lines
// ---------------------------------------------------------------------------

/// The value that was given last for a flag among flags and their values.
pub open spec fn last_value(words: Seq<Seq<char>>, flag: Seq<char>) -> Option<Seq<char>>
    decreases words.len(),
{
    if words.len() < 2 {
        None
    } else {
        match last_value(words.skip(2), flag) {
            Some(later) => Some(later),
            None => if words[0] == flag {
                Some(words[1])
            } else {
                None
            },
        }
    }
}

/// All values that were given for a flag among flags and their values, in order.
pub open spec fn all_values(words: Seq<Seq<char>>, flag: Seq<char>) -> Seq<Seq<char>>
    decreases words.len(),
{
    if words.len() < 2 {
        seq![]
    } else if words[0] == flag {
        seq![words[1]] + all_values(words.skip(2), flag)
    } else {
        all_values(words.skip(2), flag)
    }
}

/// Whether words are flags, each followed by a value that it takes.
pub open spec fn well_formed(words: Seq<Seq<char>>) -> bool
    decreases words.len(),
{
    words.len() == 0 || (words.len() >= 2 && takes(words[0], words[1]) && well_formed(
        words.skip(2),
    ))
}

/// Whether environment variables come of their settings, in order.
pub open spec fn all_set(ts: Seq<Seq<char>>, pairs: Seq<(Seq<char>, Seq<char>)>) -> bool {
    ts.len() == pairs.len() && forall|i: int| 0 <= i < ts.len() ==> sets(ts[i], #[trigger] pairs[i])
}

/// A setting: the one that was given last, or else the one before.
pub open spec fn given<T>(last: Option<Seq<char>>, read: spec_fn(Seq<char>) -> T, before: T) -> T {
    match last {
        Some(value) => read(value),
        None => before,
    }
}

proof fn lemma_all_flags(a: SessionArgsView, words: Seq<Seq<char>>)
    ensures
        a.with_all(words) is Ok == well_formed(words),
        a.with_all(words) matches Ok(b) ==> {
            let number = |t: Seq<char>, max: nat| text::stated_number(t, max)->0;
            &&& b.config.program == given(
                last_value(words, "--shell"@),
                |t: Seq<char>| t,
                a.config.program,
            )
            &&& b.config.working_directory == given(
                last_value(words, "--cwd"@),
                |t: Seq<char>| Some(encode_utf8(t)),
                a.config.working_directory,
            )
            &&& b.config.args == a.config.args + all_values(words, "--arg"@)
            &&& a.config.env.len() <= b.config.env.len()
            &&& b.config.env.take(a.config.env.len() as int) == a.config.env
            &&& all_set(
                all_values(words, "--env"@),
                b.config.env.skip(a.config.env.len() as int),
            )
            &&& b.cols == given(
                last_value(words, "--cols"@),
                |t: Seq<char>| number(t, 65535),
                a.cols as nat,
            )
            &&& b.rows == given(
                last_value(words, "--rows"@),
                |t: Seq<char>| number(t, 65535),
                a.rows as nat,
            )
            &&& b.config.max_scrollback_lines == given(
                last_value(words, "--scrollback"@),
                |t: Seq<char>| number(t, usize::MAX as nat),
                a.config.max_scrollback_lines as nat,
            )
            &&& b.socket_override == given(
                last_value(words, "--socket"@),
                |t: Seq<char>| Some(t),
                a.socket_override,
            )
            &&& last_value(words, "--session"@) is None ==> b.session_id == a.session_id
            &&& last_value(words, "--session"@) matches Some(t) ==> b.session_id is Some
                && ids::read_id(t) == Ok::<u128, Seq<char>>(b.session_id->0)
        },
    decreases words.len(),
{
    if words.len() == 0 {
        let b = a;
        assert(a.config.args + all_values(words, "--arg"@) =~= a.config.args);
        assert(a.config.env.take(a.config.env.len() as int) =~= a.config.env);
    } else if words.len() >= 2 {
        let flag = words[0];
        let value = words[1];
        let rest = words.skip(2);
        law_flags_take_or_refuse_values(a, flag, value);
        lemma_known(flag, value);
        if let Ok(mid) = a.with(flag, value) {
            law_each_flag_sets_its_own_setting(a, flag, value, mid);
            lemma_all_flags(mid, rest);
            lemma_flags_differ();
            if let Ok(b) = mid.with_all(rest) {
                assert(mid.config.args + all_values(rest, "--arg"@) =~= a.config.args
                    + all_values(words, "--arg"@));
                lemma_env_of_two(a.config.env, mid.config.env, b.config.env, words);
            }
        }
    } else {
        lemma_flags_differ();
    }
}

proof fn lemma_known(flag: Seq<char>, value: Seq<char>)
    ensures
        takes(flag, value) ==> args::is_flag(flag),
{
}

proof fn lemma_env_of_two(
    a: Seq<(Seq<char>, Seq<char>)>,
    mid: Seq<(Seq<char>, Seq<char>)>,
    b: Seq<(Seq<char>, Seq<char>)>,
    words: Seq<Seq<char>>,
)
    requires
        words.len() >= 2,
        if words[0] == "--env"@ {
            mid.len() == a.len() + 1 && mid.drop_last() == a && sets(words[1], mid.last())
        } else {
            mid == a
        },
        mid.len() <= b.len(),
        b.take(mid.len() as int) == mid,
        all_set(all_values(words.skip(2), "--env"@), b.skip(mid.len() as int)),
    ensures
        a.len() <= b.len(),
        b.take(a.len() as int) == a,
        all_set(all_values(words, "--env"@), b.skip(a.len() as int)),
{
    let n = a.len() as int;
    let later = b.skip(mid.len() as int);
    let pairs = b.skip(n);
    let ts = all_values(words, "--env"@);
    assert forall|i: int| 0 <= i < n implies b[i] == a[i] by {
        assert(mid[i] == b.take(mid.len() as int)[i]);
        if words[0] == "--env"@ {
            assert(mid.drop_last()[i] == mid[i]);
        }
    }
    assert(b.take(n) =~= a);
    if words[0] == "--env"@ {
        assert(pairs[0] == b.take(mid.len() as int)[n]);
        assert(pairs[0] == mid.last());
        assert forall|i: int| 0 <= i < ts.len() implies sets(ts[i], #[trigger] pairs[i]) by {
            if i > 0 {
                assert(pairs[i] == later[i - 1]);
                assert(ts[i] == all_values(words.skip(2), "--env"@)[i - 1]);
            }
        }
    }
}

/// A command line that is accepted says what the session is like, in whatever
/// order its flags stand: of each setting the value that was given last counts,
/// shell arguments and environment variables add up in their order, and what is
/// not given has its default.
pub proof fn law_command_lines_say_what_sessions_are_like(
    words: &[String],
    shell: Option<String>,
    base: UnixPath,
    r: Result<SessionConfig, String>,
)
    requires
        call_ensures(parse_session_args, (words, shell, &base), r),
    ensures
        r matches Ok(config) ==> {
            let ws = text::strings(words@);
            let c = config@;
            let number = |t: Seq<char>, max: nat| text::stated_number(t, max)->0;
            &&& last_value(ws, "--shell"@) matches Some(program) ==> c.program == program
            &&& last_value(ws, "--shell"@) is None ==> c.program == match shell {
                Some(user) => user@,
                None => "/bin/sh"@,
            }
            &&& last_value(ws, "--cwd"@) matches Some(dir) ==> c.working_directory == Some(
                encode_utf8(dir),
            )
            &&& last_value(ws, "--cwd"@) is None ==> c.working_directory is None
            &&& c.args == all_values(ws, "--arg"@)
            &&& all_set(all_values(ws, "--env"@), c.env)
            &&& last_value(ws, "--cols"@) matches Some(t) ==> c.initial_size.cols == number(
                t,
                65535,
            )
            &&& last_value(ws, "--cols"@) is None ==> c.initial_size.cols == 80
            &&& last_value(ws, "--rows"@) matches Some(t) ==> c.initial_size.rows == number(
                t,
                65535,
            )
            &&& last_value(ws, "--rows"@) is None ==> c.initial_size.rows == 24
            &&& c.initial_size.cell_width == 8
            &&& c.initial_size.cell_height == 16
            &&& last_value(ws, "--scrollback"@) matches Some(t) ==> c.max_scrollback_lines
                == number(t, usize::MAX as nat)
            &&& last_value(ws, "--scrollback"@) is None ==> c.max_scrollback_lines == 10_000
            &&& last_value(ws, "--socket"@) matches Some(file) ==> c.socket_path == encode_utf8(
                file,
            )
            &&& last_value(ws, "--socket"@) is None ==> (last_value(
                ws,
                "--session"@,
            ) matches Some(t) && (ids::read_id(t) matches Ok(bits) && c.socket_path
                == sockets::socket_path(base@, bits)))
        },
{
    let ws = text::strings(words@);
    let start = args::no_args(config::maybe_text(shell));
    lemma_all_flags(start, ws);
    if let Ok(config) = r {
        let b = start.with_all(ws)->Ok_0;
        assert(start.config.args + all_values(ws, "--arg"@) =~= all_values(ws, "--arg"@));
        assert(b.config.env.skip(0) =~= b.config.env);
    }
}

/// A command line is accepted exactly where it names a session and each of its
/// words is a flag followed by a value that the flag takes.
pub proof fn law_which_command_lines_are_accepted(
    words: &[String],
    shell: Option<String>,
    base: UnixPath,
    r: Result<SessionConfig, String>,
)
    requires
        call_ensures(parse_session_args, (words, shell, &base), r),
    ensures
        r is Ok == (well_formed(text::strings(words@)) && last_value(
            text::strings(words@),
            "--session"@,
        ) is Some),
        well_formed(text::strings(words@)) ==> (r matches Err(e) ==> e@
            == "--session <UUID> is required"@),
{
    lemma_all_flags(args::no_args(config::maybe_text(shell)), text::strings(words@));
}

proof fn lemma_good_words(a: SessionArgsView, good: Seq<Seq<char>>, bad: Seq<Seq<char>>)
    requires
        well_formed(good),
    ensures
        a.with_all(good) is Ok,
        a.with_all(good + bad) == a.with_all(good)->Ok_0.with_all(bad),
    decreases good.len(),
{
    lemma_all_flags(a, good);
    if good.len() == 0 {
        assert(good + bad =~= bad);
    } else {
        let all = good + bad;
        assert(all.skip(2) =~= good.skip(2) + bad);
        assert(all[0] == good[0] && all[1] == good[1]);
        law_flags_take_or_refuse_values(a, good[0], good[1]);
        lemma_known(good[0], good[1]);
        let next = a.with(good[0], good[1])->Ok_0;
        lemma_good_words(next, good.skip(2), bad);
    }
}

/// The first word that is no flag is reported as unknown; a flag that ends the
/// command line lacks a value; and a value that its flag does not take is
/// reported as that flag reports it. What follows does not matter.
pub proof fn law_the_first_bad_word_is_reported(
    good: Seq<Seq<char>>,
    bad: Seq<Seq<char>>,
    shell: Option<Seq<char>>,
    base: Seq<u8>,
)
    requires
        well_formed(good),
        bad.len() > 0,
    ensures
        ({
            let outcome = args::session_args(good + bad, shell, base);
            let word = bad[0];
            &&& !nine(word) ==> outcome == Err::<SessionConfigView, Seq<char>>(
                about("unknown argument: "@, word),
            )
            &&& nine(word) && bad.len() == 1 ==> outcome == Err::<SessionConfigView, Seq<char>>(
                word + " requires a value"@,
            )
            &&& nine(word) && bad.len() >= 2 && !takes(word, bad[1]) ==> outcome == Err::<
                SessionConfigView,
                Seq<char>,
            >(args::no_args(shell).with(word, bad[1])->Err_0)
        }),
{
    let start = args::no_args(shell);
    lemma_good_words(start, good, bad);
    let a = start.with_all(good)->Ok_0;
    assert(about("unknown argument: "@, bad[0]) =~= "unknown argument: "@ + args::quoted(bad[0]));
    if bad.len() >= 2 {
        law_flags_take_or_refuse_values(a, bad[0], bad[1]);
        law_flags_take_or_refuse_values(start, bad[0], bad[1]);
    }
}

/// Whether a word is one of the nine flags.
pub open spec fn nine(word: Seq<char>) -> bool {
    ||| word == "--session"@ || word == "--shell"@ || word == "--arg"@
    ||| word == "--cwd"@ || word == "--env"@ || word == "--socket"@
    ||| word == "--cols"@ || word == "--rows"@ || word == "--scrollback"@
}

} // verus!
