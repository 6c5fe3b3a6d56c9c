//! What holds of the list of running hosts.

use vstd::prelude::*;

use crate::args;
use crate::ids;
use crate::ids::SessionId;
use crate::path_laws;
use crate::processes;
use crate::processes::{
    format_start, list_line, HostProcessView, ProcInfoView, PtyHostProcInfo,
};
use crate::text;

verus! {

// ---------------------------------------------------------------------------
// Lines of the list
// ---------------------------------------------------------------------------

/// Whether a text starts with another.
pub open spec fn starts(t: Seq<char>, head: Seq<char>) -> bool {
    t.len() >= head.len() && t.take(head.len() as int) == head
}

/// Whether an entry for this session is among what is known.
pub open spec fn known(v: &[(String, PtyHostProcInfo)], id: Seq<char>) -> bool {
    exists|i: int| 0 <= i < v@.len() && (#[trigger] v@[i]).0@ == id
}

/// Whether an entry is the last one for its session.
pub open spec fn last_entry(v: &[(String, PtyHostProcInfo)], i: int, id: Seq<char>) -> bool {
    &&& 0 <= i < v@.len()
    &&& v@[i].0@ == id
    &&& forall|j: int| i < j < v@.len() ==> (#[trigger] v@[j]).0@ != id
}

proof fn lemma_info_for(v: Seq<(Seq<char>, ProcInfoView)>, id: Seq<char>)
    ensures
        processes::info_for(v, id) is None ==> forall|i: int|
            0 <= i < v.len() ==> (#[trigger] v[i]).0 != id,
        processes::info_for(v, id) matches Some(info) ==> exists|i: int|
            {
                &&& 0 <= i < v.len()
                &&& #[trigger] v[i] == (id, info)
                &&& forall|j: int| i < j < v.len() ==> (#[trigger] v[j]).0 != id
            },
    decreases v.len(),
{
    if v.len() > 0 {
        let head = v.drop_last();
        if v.last().0 == id {
            assert(v[v.len() - 1] == (id, v.last().1));
        } else {
            lemma_info_for(head, id);
            assert forall|i: int| 0 <= i < v.len() && processes::info_for(v, id) is None implies (
            #[trigger] v[i]).0 != id by {
                if i < head.len() {
                    assert(head[i] == v[i]);
                }
            }
            if let Some(info) = processes::info_for(v, id) {
                let i = choose|i: int|
                    {
                        &&& 0 <= i < head.len()
                        &&& #[trigger] head[i] == (id, info)
                        &&& forall|j: int| i < j < head.len() ==> (#[trigger] head[j]).0 != id
                    };
                assert(v[i] == (id, info));
                assert forall|j: int| i < j < v.len() implies (#[trigger] v[j]).0 != id by {
                    if j < head.len() {
                        assert(head[j] == v[j]);
                    }
                }
            }
        }
    }
}

/// A session whose socket exists and whose host process is known is listed with
/// its ID, its start time and its directory, each left empty where it is not
/// known: as attached where it has a client, and as detached otherwise. It is
/// listed as stale, with nothing but its ID, exactly where the socket or the
/// process is missing. Of several entries for a session the last one counts.
pub proof fn law_how_sessions_are_listed(
    id: SessionId,
    exists_socket: bool,
    v: &[(String, PtyHostProcInfo)],
    i: int,
    line: String,
)
    requires
        call_ensures(list_line, (&id, exists_socket, v), line),
    ensures
        ({
            let name = ids::id_text(id.bits);
            let tab = seq!['\t'];
            &&& !exists_socket || !known(v, name) <==> starts(line@, "stale"@)
            &&& starts(line@, "stale"@) ==> line@ == "stale"@ + tab + name + tab + tab
            &&& exists_socket && last_entry(v, i, name) ==> {
                let info = v@[i].1;
                let state = if info.has_client {
                    "attached"@
                } else {
                    "detached"@
                };
                let started = match info.started {
                    Some(t) => t@,
                    None => seq![],
                };
                let dir = match info.cwd {
                    Some(t) => t@,
                    None => seq![],
                };
                line@ == state + tab + name + tab + started + tab + dir
            }
        }),
{
    reveal_strlit("stale");
    reveal_strlit("stale\t");
    reveal_strlit("\t\t");
    reveal_strlit("\t");
    reveal_strlit("attached");
    reveal_strlit("detached");
    let name = ids::id_text(id.bits);
    let tab = seq!['\t'];
    let all = processes::infos(v@);
    lemma_info_for(all, name);
    let info = processes::info_for(all, name);
    let stale = "stale"@ + tab + name + tab + tab;
    assert("stale\t"@ =~= "stale"@ + tab);
    assert("\t\t"@ =~= tab + tab);
    assert("\t"@ =~= tab);
    assert("stale\t"@ + name + "\t\t"@ =~= stale);
    assert(stale.take(5) =~= "stale"@);
    assert(info is Some == known(v, name)) by {
        if known(v, name) {
            let k = choose|k: int| 0 <= k < v@.len() && (#[trigger] v@[k]).0@ == name;
            assert(all[k].0 == name);
        }
        if let Some(found) = info {
            let k = choose|k: int| 0 <= k < all.len() && #[trigger] all[k] == (name, found);
            assert(v@[k].0@ == name);
        }
    }
    if exists_socket && info is Some {
        assert(line@[0] == 'a' || line@[0] == 'd');
        assert(!starts(line@, "stale"@)) by {
            if starts(line@, "stale"@) {
                assert(line@.take(5)[0] == 's');
            }
        }
    }
    if exists_socket && last_entry(v, i, name) {
        let found = info->0;
        let k = choose|k: int|
            {
                &&& 0 <= k < all.len()
                &&& #[trigger] all[k] == (name, found)
                &&& forall|j: int| k < j < all.len() ==> (#[trigger] all[j]).0 != name
            };
        assert(all[i].0 == v@[i].0@);
        assert(all[k].0 == v@[k].0@);
        assert(k == i);
        assert(all[i].1 == v@[i].1@);
    }
}

// ---------------------------------------------------------------------------
// Processes
// ---------------------------------------------------------------------------

/// The three letters of each month, in order.
pub open spec fn months() -> Seq<Seq<char>> {
    seq![
        "Jan"@,
        "Feb"@,
        "Mar"@,
        "Apr"@,
        "May"@,
        "Jun"@,
        "Jul"@,
        "Aug"@,
        "Sep"@,
        "Oct"@,
        "Nov"@,
        "Dec"@,
    ]
}

/// A number below one hundred as two digits.
pub open spec fn two_digits(n: int) -> Seq<char> {
    seq![text::decimal_digit(n / 10), text::decimal_digit(n % 10)]
}

/// Months count from one, as two digits; what is no month counts as none.
pub proof fn law_months_are_counted(i: int, name: Seq<char>)
    ensures
        0 <= i < 12 ==> processes::month(months()[i]) == two_digits(i + 1),
        !months().contains(name) ==> processes::month(name) == two_digits(0),
{
    lemma_month_numbers();
    lemma_months_differ();
    if !months().contains(name) {
        let all = months();
        assert(all[0] != name && all[1] != name && all[2] != name && all[3] != name);
        assert(all[4] != name && all[5] != name && all[6] != name && all[7] != name);
        assert(all[8] != name && all[9] != name && all[10] != name && all[11] != name);
    }
}

proof fn lemma_month_numbers()
    ensures
        "00"@ == two_digits(0),
        "01"@ == two_digits(1),
        "02"@ == two_digits(2),
        "03"@ == two_digits(3),
        "04"@ == two_digits(4),
        "05"@ == two_digits(5),
        "06"@ == two_digits(6),
        "07"@ == two_digits(7),
        "08"@ == two_digits(8),
        "09"@ == two_digits(9),
        "10"@ == two_digits(10),
        "11"@ == two_digits(11),
        "12"@ == two_digits(12),
{
    reveal_strlit("00");
    reveal_strlit("01");
    reveal_strlit("02");
    reveal_strlit("03");
    reveal_strlit("04");
    reveal_strlit("05");
    reveal_strlit("06");
    reveal_strlit("07");
    reveal_strlit("08");
    reveal_strlit("09");
    reveal_strlit("10");
    reveal_strlit("11");
    reveal_strlit("12");
    assert("00"@ =~= two_digits(0));
    assert("01"@ =~= two_digits(1));
    assert("02"@ =~= two_digits(2));
    assert("03"@ =~= two_digits(3));
    assert("04"@ =~= two_digits(4));
    assert("05"@ =~= two_digits(5));
    assert("06"@ =~= two_digits(6));
    assert("07"@ =~= two_digits(7));
    assert("08"@ =~= two_digits(8));
    assert("09"@ =~= two_digits(9));
    assert("10"@ =~= two_digits(10));
    assert("11"@ =~= two_digits(11));
    assert("12"@ =~= two_digits(12));
}

proof fn lemma_months_differ()
    ensures
        forall|i: int, j: int|
            0 <= i < j < 12 ==> (#[trigger] months()[i]) != (#[trigger] months()[j]),
{
    reveal_strlit("Jan");
    reveal_strlit("Feb");
    reveal_strlit("Mar");
    reveal_strlit("Apr");
    reveal_strlit("May");
    reveal_strlit("Jun");
    reveal_strlit("Jul");
    reveal_strlit("Aug");
    reveal_strlit("Sep");
    reveal_strlit("Oct");
    reveal_strlit("Nov");
    reveal_strlit("Dec");
    let key = |s: Seq<char>| (s[0], s[1], s[2]);
    let all = months();
    assert(key(all[0]) == ('J', 'a', 'n'));
    assert(key(all[1]) == ('F', 'e', 'b'));
    assert(key(all[2]) == ('M', 'a', 'r'));
    assert(key(all[3]) == ('A', 'p', 'r'));
    assert(key(all[4]) == ('M', 'a', 'y'));
    assert(key(all[5]) == ('J', 'u', 'n'));
    assert(key(all[6]) == ('J', 'u', 'l'));
    assert(key(all[7]) == ('A', 'u', 'g'));
    assert(key(all[8]) == ('S', 'e', 'p'));
    assert(key(all[9]) == ('O', 'c', 't'));
    assert(key(all[10]) == ('N', 'o', 'v'));
    assert(key(all[11]) == ('D', 'e', 'c'));
    assert forall|i: int, j: int| 0 <= i < j < 12 implies (#[trigger] all[i]) != (
    #[trigger] all[j]) by {
        assert(key(all[i]) != key(all[j]));
    }
}

/// A start time is shown with the year first, then the number of the month, the
/// day of the month as two digits, and the hour and minute; seconds and the day of
/// the week do not show.
pub proof fn law_start_times(fields: &[String], m: int, day: int, minute: Seq<char>, t: String)
    requires
        fields@.len() >= 6,
        call_ensures(format_start, (fields,), t),
        0 <= m < 12,
        fields@[3]@ == months()[m],
        0 <= day < 100,
        fields@[2]@ == text::decimal(day as nat) || fields@[2]@ == two_digits(day),
        minute.len() == 5,
        starts(fields@[4]@, minute),
    ensures
        t@ == fields@[5]@ + seq!['-'] + two_digits(m + 1) + seq!['-'] + two_digits(day) + seq![' ']
            + minute,
{
    reveal_strlit("-");
    reveal_strlit(" ");
    assert("-"@ =~= seq!['-']);
    assert(" "@ =~= seq![' ']);
    law_months_are_counted(m, months()[m]);
    let all = text::strings(fields@);
    assert(all[2] == fields@[2]@);
    assert(all[3] == fields@[3]@);
    assert(all[4] == fields@[4]@);
    assert(all[5] == fields@[5]@);
    assert(processes::to_the_minute(all[4]) =~= minute);
    assert(processes::padded(all[2]) == two_digits(day)) by {
        if fields@[2]@ == text::decimal(day as nat) {
            reveal_with_fuel(text::decimal, 3);
            assert(processes::padded(all[2]) =~= two_digits(day));
        }
    }
}

/// Whatever a line of `ps` holds, the start time has the year first, then the
/// month, then the day, which is filled up to two characters, and last as much of
/// the time of day as makes five characters.
pub proof fn law_parts_of_start_times(fields: &[String], t: String)
    requires
        fields@.len() >= 6,
        call_ensures(format_start, (fields,), t),
    ensures
        ({
            let (day, month, time, year) = (
                fields@[2]@,
                fields@[3]@,
                fields@[4]@,
                fields@[5]@,
            );
            let zeros = if day.len() == 0 {
                seq!['0', '0']
            } else if day.len() == 1 {
                seq!['0']
            } else {
                seq![]
            };
            let head = year + seq!['-'] + processes::month(month) + seq!['-'] + zeros + day
                + seq![' '];
            &&& time.len() >= 5 ==> t@ == head + time.take(5)
            &&& time.len() < 5 ==> t@ == head + time
        }),
{
    reveal_strlit("-");
    reveal_strlit(" ");
    assert("-"@ =~= seq!['-']);
    assert(" "@ =~= seq![' ']);
    let all = text::strings(fields@);
    assert(all[2] == fields@[2]@);
    assert(all[3] == fields@[3]@);
    assert(all[4] == fields@[4]@);
    assert(all[5] == fields@[5]@);
    let day = fields@[2]@;
    let zeros = if day.len() == 0 {
        seq!['0', '0']
    } else if day.len() == 1 {
        seq!['0']
    } else {
        seq![]
    };
    assert(processes::padded(day) =~= zeros + day);
    let before = fields@[5]@ + seq!['-'] + processes::month(fields@[3]@) + seq!['-'];
    assert(before + (zeros + day) =~= before + zeros + day);
}

/// A line of `ps` shows a host exactly where it names the program and a session:
/// at least seven words, and among those after the start time `--session` with a
/// word behind it. The first word is the process, the word behind the first
/// `--session` the session, and the word behind the first `--cwd` the directory.
pub proof fn law_lines_of_ps(line: Seq<char>, fields: Seq<Seq<char>>, at: int, dir: int)
    requires
        text::words(text::trim(line)) == fields,
    ensures
        ({
            let host = text::contains(text::trim(line), "pty-host"@);
            let named = text::contains(text::trim(line), "--session"@);
            let p = processes::process_in(line);
            &&& p is Some ==> host && named && fields.len() >= 7 && (exists|i: int|
                6 <= i < fields.len() - 1 && #[trigger] fields[i] == "--session"@)
            &&& host && named && first_after(fields, "--session"@, at) && at + 1 < fields.len()
                ==> {
                &&& p matches Some(q) && q.pid == fields[0] && q.session_id == fields[at + 1]
                    && q.started == processes::start_time(fields)
                &&& first_after(fields, "--cwd"@, dir) && dir + 1 < fields.len() ==> p->0.cwd
                    == Some(fields[dir + 1])
                &&& (forall|i: int| 6 <= i < fields.len() ==> #[trigger] fields[i] != "--cwd"@)
                    ==> p->0.cwd is None
            }
        }),
{
    if fields.len() >= 7 {
        let rest = fields.skip(6);
        path_laws::lemma_first_position(rest, "--session"@);
        path_laws::lemma_first_position(rest, "--cwd"@);
        let i = args::position(rest, "--session"@);
        let j = args::position(rest, "--cwd"@);
        if i >= 0 {
            assert(rest[i] == fields[6 + i]);
            if i + 1 < rest.len() {
                assert(rest[i + 1] == fields[6 + i + 1]);
            }
        }
        if j >= 0 {
            assert(rest[j] == fields[6 + j]);
            if j + 1 < rest.len() {
                assert(rest[j + 1] == fields[6 + j + 1]);
            }
        }
        if first_after(fields, "--session"@, at) {
            assert(rest[at - 6] == fields[at]);
            if i > at - 6 {
                assert(rest[at - 6] != "--session"@);
            }
            assert(i >= 0);
            if i < at - 6 {
                assert(fields[6 + i] != "--session"@);
            }
            assert(i == at - 6);
        }
        if first_after(fields, "--cwd"@, dir) {
            assert(rest[dir - 6] == fields[dir]);
            if j > dir - 6 {
                assert(rest[dir - 6] != "--cwd"@);
            }
            assert(j >= 0);
            if j < dir - 6 {
                assert(fields[6 + j] != "--cwd"@);
            }
            assert(j == dir - 6);
        }
    }
}

/// Whether the first `word` after the start time stands at this position.
pub open spec fn first_after(fields: Seq<Seq<char>>, word: Seq<char>, at: int) -> bool {
    &&& 6 <= at < fields.len()
    &&& fields[at] == word
    &&& forall|i: int| 6 <= i < at ==> #[trigger] fields[i] != word
}

/// The hosts that lines of `ps` show are those of the lines: each of them is shown
/// by a line, and the last line that shows a process counts for it.
pub proof fn law_processes_come_of_lines(lines: Seq<Seq<char>>)
    ensures
        forall|k: int|
            0 <= k < processes::processes_in(lines).len() ==> shown_by(
                lines,
                #[trigger] processes::processes_in(lines)[k],
            ),
        forall|i: int|
            0 <= i < lines.len() && #[trigger] last_for_pid(lines, i)
                ==> processes::processes_in(lines).contains(processes::process_in(lines[i])->0),
    decreases lines.len(),
{
    if lines.len() > 0 {
        let head = lines.drop_last();
        let before = processes::processes_in(head);
        let all = processes::processes_in(lines);
        law_processes_come_of_lines(head);
        processes::law_no_process_counts_twice(head);
        let last = lines[lines.len() - 1];
        if let Some(p) = processes::process_in(last) {
            processes::lemma_pid_position(before, p.pid);
            let at = processes::pid_position(before, p.pid) as int;
            assert(all[at] == p);
        }
        assert forall|k: int| 0 <= k < all.len() implies shown_by(lines, #[trigger] all[k]) by {
            if k < before.len() && all[k] == before[k] {
                assert(shown_by(head, before[k]));
                let i = choose|i: int|
                    0 <= i < head.len() && #[trigger] processes::process_in(head[i]) == Some(
                        before[k],
                    );
                assert(processes::process_in(lines[i]) == Some(all[k]));
            } else {
                assert(processes::process_in(lines[lines.len() - 1]) == Some(all[k]));
            }
        }
        assert forall|i: int|
            0 <= i < lines.len() && #[trigger] last_for_pid(lines, i) implies all.contains(
            processes::process_in(lines[i])->0,
        ) by {
            let p = processes::process_in(lines[i])->0;
            if i < head.len() {
                assert(head[i] == lines[i]);
                assert forall|j: int| i < j < head.len() implies !same_pid(
                    #[trigger] head[j],
                    head[i],
                ) by {
                    assert(head[j] == lines[j]);
                }
                assert(last_for_pid(head, i));
                let k = choose|k: int| 0 <= k < before.len() && before[k] == p;
                assert(!same_pid(lines[lines.len() - 1], lines[i]));
                assert(all[k] == p);
            } else {
                let at = processes::pid_position(before, p.pid) as int;
                assert(all[at] == p);
            }
        }
    }
}

/// Whether one of the lines shows this process.
pub open spec fn shown_by(lines: Seq<Seq<char>>, p: HostProcessView) -> bool {
    exists|i: int| 0 <= i < lines.len() && #[trigger] processes::process_in(lines[i]) == Some(p)
}

/// Whether two lines show the same process.
pub open spec fn same_pid(a: Seq<char>, b: Seq<char>) -> bool {
    processes::process_in(a) matches Some(p) && processes::process_in(b) matches Some(q) && p.pid
        == q.pid
}

/// Whether a line shows a process that no later line shows.
pub open spec fn last_for_pid(lines: Seq<Seq<char>>, i: int) -> bool {
    &&& processes::process_in(lines[i]) is Some
    &&& forall|j: int| i < j < lines.len() ==> !same_pid(#[trigger] lines[j], lines[i])
}

// ---------------------------------------------------------------------------
// Clients
// ---------------------------------------------------------------------------

/// Whether a line of `lsof` names a process.
pub open spec fn names_process(line: Seq<char>) -> bool {
    line.len() > 0 && line[0] == 'p'
}

/// Whether a line of `lsof` names an open socket of a session, and the last line
/// before it that names a process names this one.
pub open spec fn socket_of(lines: Seq<Seq<char>>, k: int, pid: Seq<char>) -> bool {
    &&& 0 <= k < lines.len()
    &&& lines[k].len() > 0 && lines[k][0] == 'n' && text::contains(lines[k].skip(1), ".sock"@)
    &&& exists|h: int|
        {
            &&& 0 <= h < k
            &&& #[trigger] lines[h] == seq!['p'] + pid
            &&& forall|j: int| h < j < k ==> !names_process(#[trigger] lines[j])
        }
}

proof fn lemma_current(lines: Seq<Seq<char>>, k: int, pid: Seq<char>)
    requires
        0 <= k <= lines.len(),
        pid.len() > 0,
    ensures
        (processes::current_pid(lines.take(k)) == pid) == (exists|h: int|
            {
                &&& 0 <= h < k
                &&& #[trigger] lines[h] == seq!['p'] + pid
                &&& forall|j: int| h < j < k ==> !names_process(#[trigger] lines[j])
            }),
    decreases k,
{
    let head = lines.take(k);
    if k > 0 {
        let last = lines[k - 1];
        assert(head.last() == last);
        assert(head.drop_last() =~= lines.take(k - 1));
        lemma_current(lines, k - 1, pid);
        if names_process(last) {
            assert(last =~= seq!['p'] + last.skip(1));
            if last.skip(1) == pid {
                assert(lines[k - 1] == seq!['p'] + pid);
            } else {
                assert forall|h: int|
                    0 <= h < k && #[trigger] lines[h] == seq!['p'] + pid implies !(forall|j: int|
                    h < j < k ==> !names_process(#[trigger] lines[j])) by {
                    if h < k - 1 {
                        assert(names_process(lines[k - 1]));
                    } else {
                        assert((seq!['p'] + pid).skip(1) =~= pid);
                    }
                }
            }
        } else {
            if processes::current_pid(head) == pid {
                let h = choose|h: int|
                    {
                        &&& 0 <= h < k - 1
                        &&& #[trigger] lines[h] == seq!['p'] + pid
                        &&& forall|j: int| h < j < k - 1 ==> !names_process(#[trigger] lines[j])
                    };
                assert(lines[h] == seq!['p'] + pid);
            }
            assert forall|h: int|
                0 <= h < k && #[trigger] lines[h] == seq!['p'] + pid && (forall|j: int|
                    h < j < k ==> !names_process(#[trigger] lines[j])) implies h < k - 1 by {
                assert((seq!['p'] + pid)[0] == 'p');
            }
        }
    }
}

proof fn lemma_count(lines: Seq<Seq<char>>, k: int, pid: Seq<char>)
    requires
        0 <= k <= lines.len(),
        pid.len() > 0,
    ensures
        processes::socket_count(lines.take(k), pid) >= 1 <==> exists|i: int|
            i < k && #[trigger] socket_of(lines, i, pid),
        processes::socket_count(lines.take(k), pid) >= 2 <==> exists|i: int, j: int|
            i < j < k && #[trigger] socket_of(lines, i, pid) && #[trigger] socket_of(lines, j, pid),
    decreases k,
{
    let head = lines.take(k);
    if k > 0 {
        assert(head.last() == lines[k - 1]);
        assert(head.drop_last() =~= lines.take(k - 1));
        lemma_count(lines, k - 1, pid);
        lemma_current(lines, k - 1, pid);
        let before = processes::socket_count(lines.take(k - 1), pid);
        let now = processes::socket_count(head, pid);
        assert(now == before + if socket_of(lines, k - 1, pid) {
            1int
        } else {
            0int
        });
        if socket_of(lines, k - 1, pid) && before >= 1 {
            let i = choose|i: int| i < k - 1 && #[trigger] socket_of(lines, i, pid);
            assert(i < k - 1 < k && socket_of(lines, i, pid) && socket_of(lines, k - 1, pid));
        }
    }
}

/// A host has a client exactly where `lsof` shows two sockets or more of it: two
/// lines that name a `.sock`, each under the line of its process. Without the
/// output of `lsof` no host is known to have one.
pub proof fn law_two_sockets_make_a_client(p: HostProcessView, output: Seq<char>)
    requires
        p.pid.len() > 0,
    ensures
        processes::info_of(p, Some(output)).has_client <==> exists|i: int, j: int|
            i < j && #[trigger] socket_of(text::lines(output), i, p.pid) && #[trigger] socket_of(
                text::lines(output),
                j,
                p.pid,
            ),
        !processes::info_of(p, None).has_client,
        processes::info_of(p, Some(output)).cwd == p.cwd,
        processes::info_of(p, None).cwd == p.cwd,
        processes::info_of(p, Some(output)).started == Some(p.started),
        processes::info_of(p, None).started == Some(p.started),
{
    let lines = text::lines(output);
    lemma_count(lines, lines.len() as int, p.pid);
    assert(lines.take(lines.len() as int) =~= lines);
}

/// Every session that is listed is that of a process, with what this process
/// tells.
pub proof fn law_sessions_come_of_processes(ps: Seq<HostProcessView>, lsof: Option<Seq<char>>)
    ensures
        forall|k: int|
            0 <= k < processes::infos_of(ps, lsof).len() ==> told_by(
                ps,
                lsof,
                #[trigger] processes::infos_of(ps, lsof)[k],
            ),
    decreases ps.len(),
{
    if ps.len() > 0 {
        let head = ps.drop_last();
        let before = processes::infos_of(head, lsof);
        let all = processes::infos_of(ps, lsof);
        law_sessions_come_of_processes(head, lsof);
        assert forall|k: int| 0 <= k < all.len() implies told_by(ps, lsof, #[trigger] all[k]) by {
            if k < before.len() && all[k] == before[k] {
                assert(told_by(head, lsof, before[k]));
                let i = choose|i: int|
                    0 <= i < head.len() && before[k] == (
                        (#[trigger] head[i]).session_id,
                        processes::info_of(head[i], lsof),
                    );
                assert(ps[i] == head[i]);
            } else {
                assert(ps[ps.len() - 1] == ps.last());
            }
        }
    }
}

/// Whether an entry says what one of the processes tells of its session.
pub open spec fn told_by(
    ps: Seq<HostProcessView>,
    lsof: Option<Seq<char>>,
    entry: (Seq<char>, ProcInfoView),
) -> bool {
    exists|i: int|
        0 <= i < ps.len() && entry == (
            (#[trigger] ps[i]).session_id,
            processes::info_of(ps[i], lsof),
        )
}

// ---------------------------------------------------------------------------
// Lists of processes
// ---------------------------------------------------------------------------

/// The parts of a text between commas.
pub open spec fn between_commas(t: Seq<char>) -> Seq<Seq<char>>
    decreases t.len(),
{
    if t.len() == 0 {
        seq![seq![]]
    } else if t.last() == ',' {
        between_commas(t.drop_last()).push(seq![])
    } else {
        let parts = between_commas(t.drop_last());
        parts.drop_last().push(parts.last().push(t.last()))
    }
}

proof fn lemma_parts(t: Seq<char>, pid: Seq<char>)
    requires
        !pid.contains(','),
    ensures
        between_commas(t).len() > 0,
        between_commas(t + seq![','] + pid) == between_commas(t).push(pid),
        between_commas(pid) == seq![pid],
    decreases t.len() + pid.len(),
{
    if t.len() > 0 {
        lemma_parts(t.drop_last(), seq![]);
    }
    let whole = t + seq![','] + pid;
    if pid.len() == 0 {
        assert(whole.drop_last() =~= t);
        assert(pid =~= Seq::<char>::empty());
    } else {
        let shorter = pid.drop_last();
        assert(!shorter.contains(',')) by {
            if shorter.contains(',') {
                let i = choose|i: int| 0 <= i < shorter.len() && shorter[i] == ',';
                assert(pid[i] == ',');
            }
        }
        assert(pid[pid.len() - 1] != ',');
        lemma_parts(t, shorter);
        assert(whole.drop_last() =~= t + seq![','] + shorter);
        assert(shorter.push(pid.last()) =~= pid);
        assert(between_commas(t).push(shorter).drop_last() =~= between_commas(t));
        assert(seq![shorter].drop_last().push(pid) =~= seq![pid]);
    }
}

/// A list of processes reads back: with commas between them stand the processes,
/// all of them and in order.
pub proof fn law_lists_of_processes_read_back(ps: Seq<HostProcessView>)
    requires
        ps.len() > 0,
        forall|i: int| 0 <= i < ps.len() ==> !(#[trigger] ps[i]).pid.contains(','),
    ensures
        between_commas(processes::listed_pids(ps)).len() == ps.len(),
        forall|i: int|
            0 <= i < ps.len() ==> (#[trigger] between_commas(processes::listed_pids(ps))[i])
                == ps[i].pid,
    decreases ps.len(),
{
    let all = between_commas(processes::listed_pids(ps));
    let last = ps[ps.len() - 1].pid;
    if ps.len() == 1 {
        lemma_parts(seq![], last);
    } else {
        let head = ps.drop_last();
        assert forall|i: int| 0 <= i < head.len() implies !(#[trigger] head[i]).pid.contains(
            ',',
        ) by {
            assert(head[i] == ps[i]);
        }
        law_lists_of_processes_read_back(head);
        reveal_strlit(",");
        assert(","@ =~= seq![',']);
        lemma_parts(processes::listed_pids(head), last);
        let before = between_commas(processes::listed_pids(head));
        assert(all =~= before.push(last));
        assert forall|i: int| 0 <= i < ps.len() implies (#[trigger] all[i]) == ps[i].pid by {
            if i < head.len() {
                assert(all[i] == before[i]);
                assert(head[i] == ps[i]);
            }
        }
    }
}

} // verus!
