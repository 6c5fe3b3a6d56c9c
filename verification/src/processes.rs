//! Which hosts are running, as `ps` and `lsof` tell it.

use vstd::prelude::*;
use vstd::slice::*;
use vstd::string::*;
use vstd::utf8::*;

use crate::args;
use crate::args::find_value;
use crate::config;
use crate::ids;
use crate::ids::SessionId;
use crate::text;
use crate::text::{
    chars_of, contains_text, copy_text, push_string, split_lines, split_words, string_of, text_eq,
    text_from_utf8_lossy, trimmed,
};

verus! {

/// A running host process.
#[derive(Debug, Clone, PartialEq, Eq)]
pub struct HostProcess {
    pub pid: String,
    pub session_id: String,
    /// Working directory from the `--cwd` argument.
    pub cwd: Option<String>,
    /// When the process was started.
    pub started: String,
}

/// What a [`HostProcess`] says.
#[verifier::ext_equal]
pub struct HostProcessView {
    pub pid: Seq<char>,
    pub session_id: Seq<char>,
    pub cwd: Option<Seq<char>>,
    pub started: Seq<char>,
}

impl View for HostProcess {
    type V = HostProcessView;

    open spec fn view(&self) -> HostProcessView {
        HostProcessView {
            pid: self.pid@,
            session_id: self.session_id@,
            cwd: config::maybe_text(self.cwd),
            started: self.started@,
        }
    }
}

/// The number of a month, as two digits.
pub open spec fn month(name: Seq<char>) -> Seq<char> {
    if name == "Jan"@ {
        "01"@
    } else if name == "Feb"@ {
        "02"@
    } else if name == "Mar"@ {
        "03"@
    } else if name == "Apr"@ {
        "04"@
    } else if name == "May"@ {
        "05"@
    } else if name == "Jun"@ {
        "06"@
    } else if name == "Jul"@ {
        "07"@
    } else if name == "Aug"@ {
        "08"@
    } else if name == "Sep"@ {
        "09"@
    } else if name == "Oct"@ {
        "10"@
    } else if name == "Nov"@ {
        "11"@
    } else if name == "Dec"@ {
        "12"@
    } else {
        "00"@
    }
}

/// A text with zeros before it up to a length of two.
pub open spec fn padded(s: Seq<char>) -> Seq<char> {
    if s.len() == 0 {
        seq!['0', '0']
    } else if s.len() == 1 {
        seq!['0'] + s
    } else {
        s
    }
}

/// The hours and minutes of a time of day: its first five characters, as far as
/// it has them.
pub open spec fn to_the_minute(time: Seq<char>) -> Seq<char> {
    if time.len() < 5 {
        time
    } else {
        time.take(5)
    }
}

/// A start time in the form `2026-03-16 21:08`, from the fields of a line of
/// `ps`: the PID, then day of the week, day, month, time and year.
pub open spec fn start_time(fields: Seq<Seq<char>>) -> Seq<char> {
    fields[5] + "-"@ + month(fields[3]) + "-"@ + padded(fields[2]) + " "@ + to_the_minute(fields[4])
}

/// The host process that a line of `ps` shows, where it shows one: PID, start
/// time in five fields, program, and arguments with a session.
pub open spec fn process_in(line: Seq<char>) -> Option<HostProcessView> {
    let t = text::trim(line);
    let fields = text::words(t);
    if !text::contains(t, "pty-host"@) || !text::contains(t, "--session"@) || fields.len() < 7 {
        None
    } else {
        match args::value_after(fields.skip(6), "--session"@) {
            Some(session_id) => Some(
                HostProcessView {
                    pid: fields[0],
                    session_id,
                    cwd: args::value_after(fields.skip(6), "--cwd"@),
                    started: start_time(fields),
                },
            ),
            None => None,
        }
    }
}

/// The position of a PID among processes, or their number where it is not
/// there.
pub open spec fn pid_position(ps: Seq<HostProcessView>, pid: Seq<char>) -> nat
    decreases ps.len(),
{
    if ps.len() == 0 || ps[0].pid == pid {
        0
    } else {
        1 + pid_position(ps.skip(1), pid)
    }
}

/// Processes with one more, which takes the place of one with the same PID.
pub open spec fn with_process(ps: Seq<HostProcessView>, p: HostProcessView) -> Seq<
    HostProcessView,
> {
    if pid_position(ps, p.pid) < ps.len() {
        ps.update(pid_position(ps, p.pid) as int, p)
    } else {
        ps.push(p)
    }
}

/// The host processes that lines of `ps` show.
pub open spec fn processes_in(lines: Seq<Seq<char>>) -> Seq<HostProcessView>
    decreases lines.len(),
{
    if lines.len() == 0 {
        seq![]
    } else {
        let earlier = processes_in(lines.drop_last());
        match process_in(lines.last()) {
            Some(p) => with_process(earlier, p),
            None => earlier,
        }
    }
}

/// What several processes say.
pub open spec fn processes(ps: Seq<HostProcess>) -> Seq<HostProcessView> {
    Seq::new(ps.len(), |i: int| ps[i]@)
}

fn month_of(name: &str) -> (number: &'static str)
    ensures
        number@ == month(name@),
{
    if text_eq(name, "Jan") {
        "01"
    } else if text_eq(name, "Feb") {
        "02"
    } else if text_eq(name, "Mar") {
        "03"
    } else if text_eq(name, "Apr") {
        "04"
    } else if text_eq(name, "May") {
        "05"
    } else if text_eq(name, "Jun") {
        "06"
    } else if text_eq(name, "Jul") {
        "07"
    } else if text_eq(name, "Aug") {
        "08"
    } else if text_eq(name, "Sep") {
        "09"
    } else if text_eq(name, "Oct") {
        "10"
    } else if text_eq(name, "Nov") {
        "11"
    } else if text_eq(name, "Dec") {
        "12"
    } else {
        "00"
    }
}

fn push_padded(out: &mut String, s: &str)
    ensures
        final(out)@ == old(out)@ + padded(s@),
{
    let ghost before = out@;
    let n: usize = chars_of(s).len();
    if n < 2 {
        out.push('0');
    }
    if n < 1 {
        out.push('0');
    }
    out.append(s);
    assert(out@ =~= before + padded(s@));
}

fn push_to_the_minute(out: &mut String, time: &str)
    ensures
        final(out)@ == old(out)@ + to_the_minute(time@),
{
    let ghost before = out@;
    let cs: Vec<char> = chars_of(time);
    let mut i: usize = 0;
    assert(out@ =~= before + time@.take(0));
    while i < cs.len() && i < 5
        invariant
            i <= cs@.len(),
            i <= 5,
            cs@ == time@,
            out@ == before + time@.take(i as int),
        decreases cs@.len() - i,
    {
        out.push(cs[i]);
        assert(out@ =~= before + time@.take(i + 1));
        i = i + 1;
    }
    assert(time@.take(i as int) =~= to_the_minute(time@));
}

/// The start time that the fields of a line of `ps` give.
pub fn format_start(fields: &[String]) -> (t: String)
    requires
        fields@.len() >= 6,
    ensures
        t@ == start_time(text::strings(fields@)),
{
    let mut t: String = copy_text(fields[5].as_str());
    t.append("-");
    t.append(month_of(fields[3].as_str()));
    t.append("-");
    push_padded(&mut t, fields[2].as_str());
    t.append(" ");
    push_to_the_minute(&mut t, fields[4].as_str());
    t
}

fn to_strings(v: &Vec<Vec<char>>) -> (out: Vec<String>)
    ensures
        text::strings(out@) == text::texts(v@),
{
    let mut out: Vec<String> = Vec::new();
    let mut i: usize = 0;
    assert(text::strings(out@) =~= text::texts(v@).take(0));
    while i < v.len()
        invariant
            i <= v@.len(),
            text::strings(out@) == text::texts(v@).take(i as int),
        decreases v@.len() - i,
    {
        push_string(&mut out, string_of(v[i].as_slice()));
        assert(text::strings(out@) =~= text::texts(v@).take(i + 1));
        i = i + 1;
    }
    assert(text::texts(v@).take(i as int) =~= text::texts(v@));
    out
}

/// Reads a line of `ps`.
pub fn read_process(line: &[char]) -> (p: Option<HostProcess>)
    ensures
        match p {
            Some(p) => process_in(line@) == Some(p@),
            None => process_in(line@) is None,
        },
{
    let t: &[char] = trimmed(line);
    let host: Vec<char> = chars_of("pty-host");
    let session: Vec<char> = chars_of("--session");
    if !contains_text(t, host.as_slice()) || !contains_text(t, session.as_slice()) {
        return None;
    }
    let words: Vec<Vec<char>> = split_words(t);
    let fields: Vec<String> = to_strings(&words);
    if fields.len() < 7 {
        return None;
    }
    let given: &[String] = slice_subrange(fields.as_slice(), 6, fields.len());
    assert(text::strings(given@) =~= text::strings(fields@).skip(6));
    match find_value(given, "--session") {
        Some(session_id) => Some(
            HostProcess {
                pid: copy_text(fields[0].as_str()),
                session_id,
                cwd: find_value(given, "--cwd"),
                started: format_start(fields.as_slice()),
            },
        ),
        None => None,
    }
}

fn add_process(ps: &mut Vec<HostProcess>, p: HostProcess)
    ensures
        processes(final(ps)@) == with_process(processes(old(ps)@), p@),
{
    let ghost all = processes(ps@);
    let ghost said = p@;
    let mut i: usize = 0;
    assert(all.skip(0) =~= all);
    while i < ps.len()
        invariant
            i <= ps@.len(),
            all == processes(ps@),
            all == processes(old(ps)@),
            said == p@,
            pid_position(all, p.pid@) == i + pid_position(all.skip(i as int), p.pid@),
        decreases ps@.len() - i,
    {
        assert(all.skip(i as int)[0] == ps@[i as int]@);
        assert(all.skip(i as int).skip(1) =~= all.skip(i + 1));
        if text_eq(ps[i].pid.as_str(), p.pid.as_str()) {
            ps.set(i, p);
            assert(processes(ps@) =~= all.update(i as int, said));
            return;
        }
        i = i + 1;
    }
    ps.push(p);
    assert(processes(ps@) =~= all.push(said));
}

/// Reads the output of `ps`, as a text.
pub fn read_processes(output: &str) -> (ps: Vec<HostProcess>)
    ensures
        processes(ps@) == processes_in(text::lines(output@)),
{
    let cs: Vec<char> = chars_of(output);
    let lines: Vec<Vec<char>> = split_lines(cs.as_slice());
    let ghost all = text::texts(lines@);
    let mut ps: Vec<HostProcess> = Vec::new();
    let mut i: usize = 0;
    assert(all.take(0) =~= Seq::<Seq<char>>::empty());
    assert(processes(ps@) =~= Seq::<HostProcessView>::empty());
    while i < lines.len()
        invariant
            i <= lines@.len(),
            all == text::texts(lines@),
            processes(ps@) == processes_in(all.take(i as int)),
        decreases lines@.len() - i,
    {
        assert(all.take(i + 1).drop_last() =~= all.take(i as int));
        assert(all.take(i + 1).last() == lines@[i as int]@);
        if let Some(p) = read_process(lines[i].as_slice()) {
            add_process(&mut ps, p);
        }
        i = i + 1;
    }
    assert(all.take(i as int) =~= all);
    ps
}

/// Reads the output of `ps -eo pid,lstart,args`. Valid UTF-8 is read as it is.
pub fn host_processes(output: &[u8]) -> (ps: Vec<HostProcess>)
    ensures
        processes(ps@) == processes_in(text::lines(text::utf8_lossy(output@))),
        valid_utf8(output@) ==> processes(ps@) == processes_in(
            text::lines(decode_utf8(output@)),
        ),
{
    read_processes(text_from_utf8_lossy(output).as_str())
}

/// PIDs with commas between them.
pub open spec fn listed_pids(ps: Seq<HostProcessView>) -> Seq<char>
    decreases ps.len(),
{
    if ps.len() == 0 {
        seq![]
    } else if ps.len() == 1 {
        ps[0].pid
    } else {
        listed_pids(ps.drop_last()) + ","@ + ps.last().pid
    }
}

/// The PIDs of processes, as `lsof -p` takes them.
pub fn pids_csv(ps: &[HostProcess]) -> (csv: String)
    ensures
        csv@ == listed_pids(processes(ps@)),
{
    let ghost all = processes(ps@);
    let mut csv: String = copy_text("");
    let mut i: usize = 0;
    proof {
        reveal_strlit("");
    }
    assert(all.take(0) =~= Seq::<HostProcessView>::empty());
    assert(csv@ =~= listed_pids(all.take(0)));
    while i < ps.len()
        invariant
            i <= ps@.len(),
            all == processes(ps@),
            csv@ == listed_pids(all.take(i as int)),
        decreases ps@.len() - i,
    {
        let ghost next = all.take(i + 1);
        assert(next.drop_last() =~= all.take(i as int));
        if i > 0 {
            csv.append(",");
        }
        csv.append(ps[i].pid.as_str());
        assert(csv@ =~= listed_pids(next));
        i = i + 1;
    }
    assert(all.take(i as int) =~= all);
    csv
}

/// The process that lines of `lsof -F pn` are about at their end: the last one
/// named.
pub open spec fn current_pid(lines: Seq<Seq<char>>) -> Seq<char>
    decreases lines.len(),
{
    if lines.len() == 0 {
        seq![]
    } else if lines.last().len() > 0 && lines.last()[0] == 'p' {
        lines.last().skip(1)
    } else {
        current_pid(lines.drop_last())
    }
}

/// How many sockets of sessions a process has open by lines of `lsof -F pn`.
pub open spec fn socket_count(lines: Seq<Seq<char>>, pid: Seq<char>) -> nat
    decreases lines.len(),
{
    if lines.len() == 0 {
        0
    } else {
        let line = lines.last();
        let holder = current_pid(lines.drop_last());
        let here: nat = if line.len() > 0 && line[0] == 'n' && text::contains(
            line.skip(1),
            ".sock"@,
        ) && holder.len() > 0 && holder == pid {
            1
        } else {
            0
        };
        socket_count(lines.drop_last(), pid) + here
    }
}

fn same_text(a: &[char], b: &[char]) -> (same: bool)
    ensures
        same == (a@ == b@),
{
    if a.len() != b.len() {
        return false;
    }
    let mut i: usize = 0;
    while i < a.len()
        invariant
            i <= a@.len(),
            a@.len() == b@.len(),
            forall|j: int| 0 <= j < i ==> a@[j] == b@[j],
        decreases a@.len() - i,
    {
        if a[i] != b[i] {
            return false;
        }
        i = i + 1;
    }
    assert(a@ =~= b@);
    true
}

fn count_sockets(lines: &Vec<Vec<char>>, pid: &str) -> (n: usize)
    ensures
        n == socket_count(text::texts(lines@), pid@),
{
    let ghost all = text::texts(lines@);
    let wanted: Vec<char> = chars_of(pid);
    let needle: Vec<char> = chars_of(".sock");
    let none: Vec<char> = Vec::new();
    let mut holder: &[char] = none.as_slice();
    let mut n: usize = 0;
    let mut i: usize = 0;
    assert(all.take(0) =~= Seq::<Seq<char>>::empty());
    assert(holder@ =~= Seq::<char>::empty());
    while i < lines.len()
        invariant
            i <= lines@.len(),
            n <= i,
            all == text::texts(lines@),
            wanted@ == pid@,
            needle@ == ".sock"@,
            holder@ == current_pid(all.take(i as int)),
            n == socket_count(all.take(i as int), pid@),
        decreases lines@.len() - i,
    {
        let line: &[char] = lines[i].as_slice();
        let ghost next = all.take(i + 1);
        assert(next.drop_last() =~= all.take(i as int));
        assert(next.last() == line@);
        if line.len() > 0 {
            let name: &[char] = slice_subrange(line, 1, line.len());
            assert(name@ =~= line@.skip(1));
            if line[0] == 'p' {
                holder = name;
            } else if line[0] == 'n' {
                if contains_text(name, needle.as_slice()) && holder.len() > 0 && same_text(
                    holder,
                    wanted.as_slice(),
                ) {
                    n = n + 1;
                }
            }
        }
        i = i + 1;
    }
    assert(all.take(i as int) =~= all);
    n
}

/// What is known of a running host.
#[derive(Debug, Clone, PartialEq, Eq)]
pub struct PtyHostProcInfo {
    /// Working directory from the `--cwd` argument.
    pub cwd: Option<String>,
    /// Whether a client is connected.
    pub has_client: bool,
    /// When the process was started.
    pub started: Option<String>,
}

/// What a [`PtyHostProcInfo`] says.
#[verifier::ext_equal]
pub struct ProcInfoView {
    pub cwd: Option<Seq<char>>,
    pub has_client: bool,
    pub started: Option<Seq<char>>,
}

impl View for PtyHostProcInfo {
    type V = ProcInfoView;

    open spec fn view(&self) -> ProcInfoView {
        ProcInfoView {
            cwd: config::maybe_text(self.cwd),
            has_client: self.has_client,
            started: config::maybe_text(self.started),
        }
    }
}

/// What is known of a process, given the output of `lsof` where there is any. A
/// host has one socket open to listen, and another one for a client.
pub open spec fn info_of(p: HostProcessView, lsof: Option<Seq<char>>) -> ProcInfoView {
    ProcInfoView {
        cwd: p.cwd,
        has_client: match lsof {
            Some(output) => socket_count(text::lines(output), p.pid) >= 2,
            None => false,
        },
        started: Some(p.started),
    }
}

/// The position of a session among entries, or their number where it is not
/// there.
pub open spec fn session_position(v: Seq<(Seq<char>, ProcInfoView)>, id: Seq<char>) -> nat
    decreases v.len(),
{
    if v.len() == 0 || v[0].0 == id {
        0
    } else {
        1 + session_position(v.skip(1), id)
    }
}

/// Entries with one more, which takes the place of one under the same session.
pub open spec fn with_info(
    v: Seq<(Seq<char>, ProcInfoView)>,
    entry: (Seq<char>, ProcInfoView),
) -> Seq<(Seq<char>, ProcInfoView)> {
    if session_position(v, entry.0) < v.len() {
        v.update(session_position(v, entry.0) as int, entry)
    } else {
        v.push(entry)
    }
}

/// What is known of each session: what its process tells, the last one where it
/// has several.
pub open spec fn infos_of(ps: Seq<HostProcessView>, lsof: Option<Seq<char>>) -> Seq<
    (Seq<char>, ProcInfoView),
>
    decreases ps.len(),
{
    if ps.len() == 0 {
        seq![]
    } else {
        with_info(
            infos_of(ps.drop_last(), lsof),
            (ps.last().session_id, info_of(ps.last(), lsof)),
        )
    }
}

/// Whether no session stands twice among entries.
pub open spec fn distinct_sessions(v: Seq<(Seq<char>, ProcInfoView)>) -> bool {
    forall|i: int, j: int| 0 <= i < j < v.len() ==> (#[trigger] v[i]).0 != (#[trigger] v[j]).0
}

proof fn lemma_session_position(v: Seq<(Seq<char>, ProcInfoView)>, id: Seq<char>)
    ensures
        session_position(v, id) <= v.len(),
        session_position(v, id) < v.len() ==> v[session_position(v, id) as int].0 == id,
        forall|i: int| 0 <= i < session_position(v, id) ==> (#[trigger] v[i]).0 != id,
    decreases v.len(),
{
    if v.len() > 0 && v[0].0 != id {
        let later = v.skip(1);
        lemma_session_position(later, id);
        assert forall|i: int| 0 <= i < session_position(v, id) implies (#[trigger] v[i]).0
            != id by {
            if i > 0 {
                assert(later[i - 1] == v[i]);
            }
        }
    }
}

/// Whether a process is the last one of its session.
pub open spec fn last_of_session(ps: Seq<HostProcessView>, i: int) -> bool {
    forall|j: int| i < j < ps.len() ==> (#[trigger] ps[j]).session_id != ps[i].session_id
}

/// However many processes name a session, the session is listed once, with what
/// its last process tells.
pub proof fn law_no_session_is_listed_twice(ps: Seq<HostProcessView>, lsof: Option<Seq<char>>)
    ensures
        distinct_sessions(infos_of(ps, lsof)),
        forall|i: int|
            0 <= i < ps.len() && #[trigger] last_of_session(ps, i) ==> info_for(
                infos_of(ps, lsof),
                ps[i].session_id,
            ) == Some(info_of(ps[i], lsof)),
    decreases ps.len(),
{
    if ps.len() > 0 {
        let earlier = ps.drop_last();
        let before = infos_of(earlier, lsof);
        let all = infos_of(ps, lsof);
        let id = ps.last().session_id;
        law_no_session_is_listed_twice(earlier, lsof);
        lemma_session_position(before, id);
        assert(distinct_sessions(all));
        assert forall|i: int|
            0 <= i < ps.len() && #[trigger] last_of_session(ps, i) implies info_for(
            all,
            ps[i].session_id,
        ) == Some(info_of(ps[i], lsof)) by {
            if i < ps.len() - 1 {
                assert(ps[i].session_id != ps[ps.len() - 1].session_id);
                assert forall|j: int| i < j < earlier.len() implies (
                #[trigger] earlier[j]).session_id != earlier[i].session_id by {
                    assert(earlier[j] == ps[j]);
                }
                assert(last_of_session(earlier, i));
                let j = lemma_info_is_there(before, ps[i].session_id);
                lemma_entry_is_found(all, j);
            } else {
                lemma_entry_is_found(all, session_position(before, id) as int);
            }
        }
    }
}

proof fn lemma_info_is_there(v: Seq<(Seq<char>, ProcInfoView)>, id: Seq<char>) -> (i: int)
    requires
        info_for(v, id) is Some,
    ensures
        0 <= i < v.len(),
        v[i].0 == id,
        info_for(v, id) == Some(v[i].1),
    decreases v.len(),
{
    if v.last().0 == id {
        v.len() - 1
    } else {
        lemma_info_is_there(v.drop_last(), id)
    }
}

proof fn lemma_entry_is_found(v: Seq<(Seq<char>, ProcInfoView)>, i: int)
    requires
        0 <= i < v.len(),
        distinct_sessions(v),
    ensures
        info_for(v, v[i].0) == Some(v[i].1),
    decreases v.len(),
{
    if i < v.len() - 1 {
        assert(v[i].0 != v[v.len() - 1].0);
        lemma_entry_is_found(v.drop_last(), i);
    }
}

/// What several entries say.
pub open spec fn infos(v: Seq<(String, PtyHostProcInfo)>) -> Seq<(Seq<char>, ProcInfoView)> {
    Seq::new(v.len(), |i: int| (v[i].0@, v[i].1@))
}

fn copy_maybe(s: &Option<String>) -> (copy: Option<String>)
    ensures
        config::maybe_text(copy) == config::maybe_text(*s),
{
    match s {
        Some(t) => Some(copy_text(t.as_str())),
        None => None,
    }
}

fn add_info(v: &mut Vec<(String, PtyHostProcInfo)>, id: String, info: PtyHostProcInfo)
    ensures
        infos(final(v)@) == with_info(infos(old(v)@), (id@, info@)),
{
    let ghost all = infos(v@);
    let ghost said = (id@, info@);
    let mut i: usize = 0;
    assert(all.skip(0) =~= all);
    while i < v.len()
        invariant
            i <= v@.len(),
            all == infos(v@),
            all == infos(old(v)@),
            said == (id@, info@),
            session_position(all, id@) == i + session_position(all.skip(i as int), id@),
        decreases v@.len() - i,
    {
        assert(all.skip(i as int)[0] == (v@[i as int].0@, v@[i as int].1@));
        assert(all.skip(i as int).skip(1) =~= all.skip(i + 1));
        if text_eq(v[i].0.as_str(), id.as_str()) {
            v.set(i, (id, info));
            assert(infos(v@) =~= all.update(i as int, said));
            return;
        }
        i = i + 1;
    }
    v.push((id, info));
    assert(infos(v@) =~= all.push(said));
}

/// Puts together what `ps` and `lsof` tell, as texts. Without the output of
/// `lsof` no host is known to have a client.
pub fn assemble_infos(ps: &[HostProcess], lsof: Option<&str>) -> (v: Vec<(String, PtyHostProcInfo)>)
    ensures
        infos(v@) == infos_of(
            processes(ps@),
            match lsof {
                Some(output) => Some(output@),
                None => None,
            },
        ),
        distinct_sessions(infos(v@)),
{
    let ghost told = match lsof {
        Some(output) => Some(output@),
        None => None,
    };
    let lines: Option<Vec<Vec<char>>> = match lsof {
        Some(output) => {
            let cs: Vec<char> = chars_of(output);
            Some(split_lines(cs.as_slice()))
        },
        None => None,
    };
    let mut v: Vec<(String, PtyHostProcInfo)> = Vec::new();
    let mut i: usize = 0;
    let ghost all = processes(ps@);
    assert(all.take(0) =~= Seq::<HostProcessView>::empty());
    assert(infos(v@) =~= infos_of(all.take(0), told));
    while i < ps.len()
        invariant
            i <= ps@.len(),
            all == processes(ps@),
            infos(v@) == infos_of(all.take(i as int), told),
            match lines {
                Some(ls) => told matches Some(output) && text::texts(ls@) == text::lines(output),
                None => told is None,
            },
        decreases ps@.len() - i,
    {
        let ghost next = all.take(i + 1);
        assert(next.drop_last() =~= all.take(i as int));
        assert(next.last() == ps@[i as int]@);
        let has_client: bool = match &lines {
            Some(ls) => count_sockets(ls, ps[i].pid.as_str()) >= 2,
            None => false,
        };
        let info = PtyHostProcInfo {
            cwd: copy_maybe(&ps[i].cwd),
            has_client,
            started: Some(copy_text(ps[i].started.as_str())),
        };
        assert(info@ =~= info_of(ps@[i as int]@, told));
        add_info(&mut v, copy_text(ps[i].session_id.as_str()), info);
        i = i + 1;
    }
    assert(all.take(i as int) =~= all);
    proof {
        law_no_session_is_listed_twice(all, told);
    }
    v
}

/// Puts together what `ps` told and the output of `lsof -F pn`, where there is
/// any. Valid UTF-8 is read as it is.
pub fn gather_pty_host_process_info(ps: &[HostProcess], lsof: Option<&[u8]>) -> (v: Vec<
    (String, PtyHostProcInfo),
>)
    ensures
        infos(v@) == infos_of(
            processes(ps@),
            match lsof {
                Some(output) => Some(text::utf8_lossy(output@)),
                None => None,
            },
        ),
        lsof matches Some(output) ==> valid_utf8(output@) ==> infos(v@) == infos_of(
            processes(ps@),
            Some(decode_utf8(output@)),
        ),
        distinct_sessions(infos(v@)),
{
    match lsof {
        Some(output) => {
            let t: String = text_from_utf8_lossy(output);
            assemble_infos(ps, Some(t.as_str()))
        },
        None => assemble_infos(ps, None),
    }
}

/// What is known of a session: what the last entry under its ID says.
pub open spec fn info_for(v: Seq<(Seq<char>, ProcInfoView)>, id: Seq<char>) -> Option<ProcInfoView>
    decreases v.len(),
{
    if v.len() == 0 {
        None
    } else if v.last().0 == id {
        Some(v.last().1)
    } else {
        info_for(v.drop_last(), id)
    }
}

/// A text that may be missing, which is then empty.
pub open spec fn or_empty(t: Option<Seq<char>>) -> Seq<char> {
    match t {
        Some(s) => s,
        None => seq![],
    }
}

/// The line that lists a session: its state, ID, start time and working
/// directory, separated by tabs. A session without a socket or without a process
/// is stale.
pub open spec fn listed(bits: u128, exists: bool, info: Option<ProcInfoView>) -> Seq<char> {
    let id = ids::id_text(bits);
    match info {
        Some(i) => if exists {
            (if i.has_client {
                "attached"@
            } else {
                "detached"@
            }) + "\t"@ + id + "\t"@ + or_empty(i.started) + "\t"@ + or_empty(i.cwd)
        } else {
            "stale\t"@ + id + "\t\t"@
        },
        None => "stale\t"@ + id + "\t\t"@,
    }
}

fn lookup<'a>(v: &'a [(String, PtyHostProcInfo)], id: &str) -> (info: Option<&'a PtyHostProcInfo>)
    ensures
        match info {
            Some(i) => info_for(infos(v@), id@) == Some(i@),
            None => info_for(infos(v@), id@) is None,
        },
{
    let ghost all = infos(v@);
    let mut n: usize = v.len();
    assert(all.take(n as int) =~= all);
    while n > 0
        invariant
            n <= v@.len(),
            all == infos(v@),
            info_for(all.take(n as int), id@) == info_for(all, id@),
        decreases n,
    {
        assert(all.take(n as int).drop_last() =~= all.take(n - 1));
        assert(all.take(n as int).last() == (v@[n - 1].0@, v@[n - 1].1@));
        if text_eq(v[n - 1].0.as_str(), id) {
            return Some(&v[n - 1].1);
        }
        n = n - 1;
    }
    None
}

/// The line that lists a session, given whether its socket exists and what is
/// known of the running hosts.
pub fn list_line(id: &SessionId, exists: bool, v: &[(String, PtyHostProcInfo)]) -> (line: String)
    ensures
        line@ == listed(id.bits, exists, info_for(infos(v@), ids::id_text(id.bits))),
{
    let id_text: String = id.text();
    if exists {
        if let Some(info) = lookup(v, id_text.as_str()) {
            let mut line: String = if info.has_client {
                copy_text("attached")
            } else {
                copy_text("detached")
            };
            line.append("\t");
            line.append(id_text.as_str());
            line.append("\t");
            if let Some(started) = &info.started {
                line.append(started.as_str());
            }
            line.append("\t");
            if let Some(cwd) = &info.cwd {
                line.append(cwd.as_str());
            }
            assert(line@ =~= listed(id.bits, exists, Some(info@)));
            return line;
        }
    }
    let mut line: String = copy_text("stale\t");
    line.append(id_text.as_str());
    line.append("\t\t");
    line
}

/// Whether no PID stands twice among processes.
pub open spec fn distinct_pids(ps: Seq<HostProcessView>) -> bool {
    forall|i: int, j: int|
        0 <= i < j < ps.len() ==> (#[trigger] ps[i]).pid != (#[trigger] ps[j]).pid
}

pub proof fn lemma_pid_position(ps: Seq<HostProcessView>, pid: Seq<char>)
    ensures
        pid_position(ps, pid) <= ps.len(),
        pid_position(ps, pid) < ps.len() ==> ps[pid_position(ps, pid) as int].pid == pid,
        forall|i: int| 0 <= i < pid_position(ps, pid) ==> (#[trigger] ps[i]).pid != pid,
    decreases ps.len(),
{
    if ps.len() > 0 && ps[0].pid != pid {
        let later = ps.skip(1);
        lemma_pid_position(later, pid);
        assert forall|i: int| 0 <= i < pid_position(ps, pid) implies (#[trigger] ps[i]).pid
            != pid by {
            if i > 0 {
                assert(later[i - 1] == ps[i]);
            }
        }
    }
}

/// Whatever `ps` prints, no process is taken to be there twice.
pub proof fn law_no_process_counts_twice(lines: Seq<Seq<char>>)
    ensures
        distinct_pids(processes_in(lines)),
    decreases lines.len(),
{
    if lines.len() > 0 {
        law_no_process_counts_twice(lines.drop_last());
        if let Some(p) = process_in(lines.last()) {
            lemma_pid_position(processes_in(lines.drop_last()), p.pid);
        }
    }
}

} // verus!
