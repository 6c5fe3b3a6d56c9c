//! What holds of the arguments and variables of host processes, of session IDs
//! and of the tracked terminal.

use vstd::prelude::*;
use vstd::utf8::*;

use crate::headless;
use crate::headless::HeadlessTerminal;
use crate::ids;
use crate::ids::SessionId;
use crate::protocol::WindowSize;
use crate::spawn;
use crate::spawn::{host_args, Environment, SpawnConfig};
use crate::text;

verus! {

// ---------------------------------------------------------------------------
// Host processes
// ---------------------------------------------------------------------------

/// Setting a variable gives it this value, whatever it had before, and leaves all
/// others as they are and where they are; a variable that was not there is added
/// at the end.
pub proof fn law_setting_a_variable(env: &mut Environment, name: String, value: String)
    requires
        call_ensures(Environment::insert, (env, name, value), ()),
    ensures
        final(env)@.contains((name@, value@)),
        forall|i: int|
            0 <= i < final(env)@.len() && (#[trigger] final(env)@[i]).0 == name@
                ==> final(env)@[i].1 == value@,
        forall|i: int|
            0 <= i < old(env)@.len() && (#[trigger] old(env)@[i]).0 != name@ ==> i
                < final(env)@.len() && final(env)@[i] == old(env)@[i],
        final(env)@.len() == old(env)@.len() + if exists|i: int|
            0 <= i < old(env)@.len() && (#[trigger] old(env)@[i]).0 == name@ {
            0int
        } else {
            1int
        },
{
    let vars = old(env)@;
    let end = final(env)@;
    spawn::lemma_name_position(vars, name@);
    let at = spawn::name_position(vars, name@) as int;
    assert(end[at] == (name@, value@));
    assert forall|i: int| 0 <= i < end.len() && (#[trigger] end[i]).0 == name@ implies end[i].1
        == value@ by {
        if i != at {
            if i < at {
                assert(end[i] == end[i] && end[at].0 == end[i].0);
            } else {
                assert(end[at].0 == end[i].0);
            }
        }
    }
    if at < vars.len() {
        assert(vars[at].0 == name@);
    }
}

/// A host is started with its session first, then its shell where one is asked
/// for, then each shell argument after a flag of its own, in order, and last its
/// directory, byte for byte, where one is asked for.
pub proof fn law_arguments_of_hosts(c: SpawnConfig, args: Vec<Vec<u8>>)
    requires
        call_ensures(host_args, (&c,), args),
    ensures
        ({
            let n = c.shell_args@.len() as int;
            let shell: int = if c.shell_program is Some {
                2
            } else {
                0
            };
            let cwd: int = if c.working_directory is Some {
                2
            } else {
                0
            };
            &&& args@.len() == 2 + shell + 2 * n + cwd
            &&& args@[0]@ == encode_utf8("--session"@)
            &&& args@[1]@ == encode_utf8(ids::id_text(c.session_id.bits))
            &&& c.shell_program matches Some(program) ==> args@[2]@ == encode_utf8("--shell"@)
                && args@[3]@ == encode_utf8(program@)
            &&& forall|i: int|
                0 <= i < n ==> flagged_at(
                    args@,
                    2 + shell + 2 * i,
                    (#[trigger] c.shell_args@[i])@,
                )
            &&& c.working_directory matches Some(dir) ==> args@[2 + shell + 2 * n]@ == encode_utf8(
                "--cwd"@,
            ) && args@[3 + shell + 2 * n]@ == dir@
        }),
{
    let all = spawn::byte_strings(args@);
    let wanted = text::strings(c.shell_args@);
    let n = c.shell_args@.len() as int;
    let shell: int = if c.shell_program is Some {
        2
    } else {
        0
    };
    lemma_flagged(wanted);
    let leading = spawn::leading_args(c@);
    assert(leading.len() == 2 + shell + 2 * n);
    assert(all.len() == args@.len());
    assert(all[0] == args@[0]@ && all[1] == args@[1]@);
    if c.shell_program is Some {
        assert(all[2] == args@[2]@ && all[3] == args@[3]@);
        assert(leading[2] == "--shell"@);
    }
    assert forall|i: int| 0 <= i < n implies flagged_at(
        args@,
        2 + shell + 2 * i,
        (#[trigger] c.shell_args@[i])@,
    ) by {
        let k = 2 + shell + 2 * i;
        assert(is_pair(spawn::flagged_args(wanted), i, wanted[i]));
        assert(all[k] == args@[k]@);
        assert(all[k + 1] == args@[k + 1]@);
        assert(leading[k] == spawn::flagged_args(wanted)[2 * i]);
        assert(leading[k + 1] == spawn::flagged_args(wanted)[2 * i + 1]);
        assert(wanted[i] == c.shell_args@[i]@);
    }
    if c.working_directory is Some {
        let k = 2 + shell + 2 * n;
        assert(all[k] == args@[k]@);
        assert(all[k + 1] == args@[k + 1]@);
    }
}

/// Whether the words at these positions are the flag of a shell argument and the
/// argument.
spec fn is_pair(words: Seq<Seq<char>>, i: int, arg: Seq<char>) -> bool {
    words[2 * i] == "--arg"@ && words[2 * i + 1] == arg
}

/// Whether the arguments at these positions are the flag of a shell argument and
/// the argument.
pub open spec fn flagged_at(args: Seq<Vec<u8>>, k: int, arg: Seq<char>) -> bool {
    args[k]@ == encode_utf8("--arg"@) && args[k + 1]@ == encode_utf8(arg)
}

proof fn lemma_flagged(ts: Seq<Seq<char>>)
    ensures
        spawn::flagged_args(ts).len() == 2 * ts.len(),
        forall|i: int|
            0 <= i < ts.len() ==> #[trigger] is_pair(spawn::flagged_args(ts), i, ts[i]),
    decreases ts.len(),
{
    if ts.len() > 0 {
        let head = ts.drop_last();
        lemma_flagged(head);
        let all = spawn::flagged_args(ts);
        assert forall|i: int| 0 <= i < ts.len() implies #[trigger] is_pair(all, i, ts[i]) by {
            if i < head.len() {
                assert(head[i] == ts[i]);
                assert(is_pair(spawn::flagged_args(head), i, head[i]));
                assert(all[2 * i] == spawn::flagged_args(head)[2 * i]);
                assert(all[2 * i + 1] == spawn::flagged_args(head)[2 * i + 1]);
            }
        }
    }
}

// ---------------------------------------------------------------------------
// Session IDs
// ---------------------------------------------------------------------------

/// An ID is shown as 32 digits with hyphens after the 8th, 12th, 16th and 20th,
/// and different IDs are shown differently.
pub proof fn law_how_ids_are_shown(a: SessionId, b: SessionId, s: String, t: String)
    requires
        call_ensures(SessionId::text, (&a,), s),
        call_ensures(SessionId::text, (&b,), t),
    ensures
        s@.len() == 36,
        s@[8] == '-' && s@[13] == '-' && s@[18] == '-' && s@[23] == '-',
        s@ == t@ ==> a.bits == b.bits,
{
    ids::lemma_id_characters(a.bits);
    ids::law_id_text_reads_back(a.bits);
    ids::law_id_text_reads_back(b.bits);
}

/// An ID reads back from its usual text.
pub proof fn law_ids_read_back(id: SessionId, t: &str, r: Result<SessionId, String>)
    requires
        t@ == ids::id_text(id.bits),
        call_ensures(SessionId::parse, (t,), r),
    ensures
        r matches Ok(read) && read.bits == id.bits,
{
    ids::law_id_text_reads_back(id.bits);
}

/// An ID is read from its usual text, from its digits without hyphens, and from
/// its usual text in braces or behind `urn:uuid:`.
pub proof fn law_forms_of_ids(bits: u128)
    ensures
        ids::read_id(ids::id_text(bits)) == Ok::<u128, Seq<char>>(bits),
        ids::read_id(ids::digits_of(bits)) == Ok::<u128, Seq<char>>(bits),
        ids::read_id(seq!['{'] + ids::id_text(bits) + seq!['}']) == Ok::<u128, Seq<char>>(bits),
        ids::read_id(
            seq!['u', 'r', 'n', ':', 'u', 'u', 'i', 'd', ':'] + ids::id_text(bits),
        ) == Ok::<u128, Seq<char>>(bits),
{
    let t = ids::id_text(bits);
    let ds = ids::digits_of(bits);
    ids::lemma_id_characters(bits);
    ids::law_id_text_reads_back(bits);
    assert(ids::hyphenated_digits(t)->0 =~= ds);
    let braced = seq!['{'] + t + seq!['}'];
    assert(braced.subrange(1, 37) =~= t);
    let prefix = seq!['u', 'r', 'n', ':', 'u', 'u', 'i', 'd', ':'];
    let urn = prefix + t;
    assert(urn.skip(9) =~= t);
    assert forall|i: int| 0 <= i < 9 implies ids::is_either_case(#[trigger] urn[i], prefix[i]) by {
        assert(urn[i] == prefix[i]);
    }
    assert(ids::starts_as_urn(urn));
}

/// Whether two characters are the same hexadecimal digit, in either case.
pub open spec fn same_digit(a: char, b: char) -> bool {
    ||| a == b
    ||| 'a' <= a <= 'f' && b as int == a as int - 32
    ||| 'a' <= b <= 'f' && a as int == b as int - 32
}

proof fn lemma_same_digits(a: Seq<char>, b: Seq<char>)
    requires
        a.len() == b.len(),
        forall|i: int| 0 <= i < a.len() ==> same_digit(#[trigger] a[i], b[i]),
    ensures
        ids::all_hex(a) == ids::all_hex(b),
        ids::all_hex(a) ==> ids::hex_number(a) == ids::hex_number(b),
    decreases a.len(),
{
    assert forall|i: int| 0 <= i < a.len() implies ids::is_hex(#[trigger] a[i]) == ids::is_hex(
        b[i],
    ) by {
        assert(same_digit(a[i], b[i]));
    }
    if ids::all_hex(b) {
        assert forall|i: int| 0 <= i < a.len() implies ids::is_hex(#[trigger] a[i]) by {
            assert(ids::is_hex(b[i]));
        }
    }
    if ids::all_hex(a) {
        assert forall|i: int| 0 <= i < b.len() implies ids::is_hex(#[trigger] b[i]) by {
            assert(ids::is_hex(a[i]));
        }
        if a.len() > 0 {
            let (x, y) = (a.drop_last(), b.drop_last());
            assert forall|i: int| 0 <= i < x.len() implies same_digit(#[trigger] x[i], y[i]) by {
                assert(same_digit(a[i], b[i]));
            }
            assert forall|i: int| 0 <= i < x.len() implies ids::is_hex(#[trigger] x[i]) by {
                assert(ids::is_hex(a[i]));
            }
            lemma_same_digits(x, y);
            let n = a.len() - 1;
            assert(same_digit(a[n], b[n]));
            assert(ids::is_hex(a[n]));
        }
    }
}

/// The digits of an ID may be in either case.
pub proof fn law_case_of_ids(a: Seq<char>, b: Seq<char>)
    requires
        a.len() == b.len(),
        a.len() == 32 || a.len() == 36,
        forall|i: int| 0 <= i < a.len() ==> same_digit(#[trigger] a[i], b[i]),
    ensures
        ids::stated_uuid(a) == ids::stated_uuid(b),
{
    if a.len() == 32 {
        lemma_same_digits(a, b);
    } else {
        assert(same_digit(a[8], b[8]) && same_digit(a[13], b[13]));
        assert(same_digit(a[18], b[18]) && same_digit(a[23], b[23]));
        let x = a.subrange(0, 8) + a.subrange(9, 13) + a.subrange(14, 18) + a.subrange(19, 23)
            + a.subrange(24, 36);
        let y = b.subrange(0, 8) + b.subrange(9, 13) + b.subrange(14, 18) + b.subrange(19, 23)
            + b.subrange(24, 36);
        assert forall|i: int| 0 <= i < x.len() implies same_digit(#[trigger] x[i], y[i]) by {
            let k = if i < 8 {
                i
            } else if i < 12 {
                i + 1
            } else if i < 16 {
                i + 2
            } else if i < 20 {
                i + 3
            } else {
                i + 4
            };
            assert(x[i] == a[k] && y[i] == b[k]);
        }
        lemma_same_digits(x, y);
    }
}

/// A text of another length than these forms have states no ID, and neither does
/// one of 32 characters with another one than a hexadecimal digit among them.
pub proof fn law_what_is_no_id(t: Seq<char>, i: int)
    ensures
        t.len() != 32 && t.len() != 36 && t.len() != 38 && t.len() != 45 ==> ids::read_id(t) is Err,
        t.len() == 32 && 0 <= i < 32 && !('0' <= t[i] <= '9' || 'a' <= t[i] <= 'f' || 'A' <= t[i]
            <= 'F') ==> ids::read_id(t) is Err,
        t.len() == 36 && (t[8] != '-' || t[13] != '-' || t[18] != '-' || t[23] != '-')
            ==> ids::read_id(t) is Err,
        ids::read_id(t) matches Err(shown) ==> shown == ids::uuid_error(t),
{
    if t.len() == 32 && 0 <= i < 32 {
        assert(!ids::all_hex(t) || ids::is_hex(t[i]));
    }
}

// ---------------------------------------------------------------------------
// The tracked terminal
// ---------------------------------------------------------------------------

/// The tracked terminal has the size it was made with, keeps as much history as it
/// was made with, and tells its size in cells.
pub proof fn law_tracked_terminals(
    size: WindowSize,
    history: usize,
    t: HeadlessTerminal,
    told: WindowSize,
)
    requires
        size.cols >= 1 || size.rows == 0,
        call_ensures(HeadlessTerminal::new, (&size, history), t),
        call_ensures(HeadlessTerminal::current_size, (&t,), told),
    ensures
        told.cols == size.cols,
        told.rows == size.rows,
        told.cell_width == 0,
        told.cell_height == 0,
        headless::term_history(t.term) == history,
{
}

/// A resize that can be done gives the terminal this size, and one that cannot be
/// done changes nothing; the history is kept either way.
pub proof fn law_resizing_tracked_terminals(
    t: &mut HeadlessTerminal,
    size: WindowSize,
    resized: bool,
    told: WindowSize,
)
    requires
        headless::term_history(old(t).term) + u16::MAX <= usize::MAX,
        call_ensures(HeadlessTerminal::try_resize, (t, &size), resized),
        call_ensures(HeadlessTerminal::current_size, (&*final(t),), told),
    ensures
        resized ==> told.cols == size.cols && told.rows == size.rows,
        !resized ==> final(t).term == old(t).term,
        size.cols >= 2 && size.rows >= 1 && 1 <= headless::term_columns(old(t).term) && 1
            <= headless::term_lines(old(t).term) <= u16::MAX ==> resized,
        headless::term_history(final(t).term) == headless::term_history(old(t).term),
{
}

} // verus!
