//! What holds of made-up titles and of the foreground process.

use vstd::prelude::*;
use vstd::utf8::*;

use crate::config;
use crate::foreground;
use crate::foreground::{
    format_title, lookup_process_info, macos_proc_cwd, macos_proc_name, make_title,
    synthesise_osc_title, Clock, ForegroundInfoSource, ForegroundProbe, OscSniffer, ProbeView,
    ProcessInfo, ProcessInfoView, SnifferState,
};
use crate::path;
use crate::path::UnixPath;
use crate::path_laws;
use crate::text_laws;

verus! {

// ---------------------------------------------------------------------------
// Titles
// ---------------------------------------------------------------------------

/// A title is the name of the program, behind the name of its directory and a dash
/// where the directory has a name.
pub proof fn law_titles(dir: &str, name: &str, title: String)
    requires
        call_ensures(make_title, (dir, name), title),
    ensures
        dir@.len() == 0 ==> title@ == name@,
        dir@.len() > 0 ==> title@ == dir@ + seq![' ', '—', ' '] + name@,
{
    reveal_strlit(" — ");
    assert(" — "@ =~= seq![' ', '—', ' ']);
}

/// The title of a program names the last part of its directory; a program whose
/// directory is not known, or has no name as the root directory has none, is
/// named alone.
pub proof fn law_titles_name_directories(
    info: ProcessInfo,
    above: Seq<u8>,
    dir: Seq<char>,
    title: String,
)
    requires
        call_ensures(format_title, (&info,), title),
        dir.len() > 0,
    ensures
        (info.cwd matches Some(cwd) && path_laws::is_name(encode_utf8(dir)) && cwd@ == above
            + seq![0x2fu8] + encode_utf8(dir)) ==> title@ == dir + seq![' ', '—', ' ']
            + info.name@,
        info.cwd is None ==> title@ == info.name@,
        (info.cwd matches Some(cwd) && path::file_name_of(cwd@) is None) ==> title@ == info.name@,
{
    reveal_strlit(" — ");
    assert(" — "@ =~= seq![' ', '—', ' ']);
    if path_laws::is_name(encode_utf8(dir)) {
        path_laws::law_file_names(above, encode_utf8(dir));
    }
    encode_utf8_valid_utf8(dir);
    encode_utf8_decode_utf8(dir);
}

/// A title is set by ESC, `]`, `0`, `;`, the title and BEL.
pub proof fn law_title_sequences(title: &str, out: Vec<u8>)
    requires
        call_ensures(synthesise_osc_title, (title,), out),
    ensures
        out@.len() == encode_utf8(title@).len() + 5,
        out@[0] == 0x1b,
        out@[1] == 0x5d,
        out@[2] == 0x30,
        out@[3] == 0x3b,
        out@.subrange(4, out@.len() - 1) == encode_utf8(title@),
        out@.last() == 0x07,
{
    assert(out@.subrange(4, out@.len() - 1) =~= encode_utf8(title@));
}

// ---------------------------------------------------------------------------
// Recognising titles
// ---------------------------------------------------------------------------

/// Whether bytes end with a title-set sequence, all of it: ESC, `]`, a code, `;`,
/// bytes without BEL and ESC, and BEL or ESC and `\`. It starts at `start`, and
/// what comes before it leaves nothing open.
pub open spec fn title_from(bytes: Seq<u8>, start: int) -> bool {
    let n = bytes.len();
    &&& 0 <= start
    &&& start + 5 <= n
    &&& bytes[start] == 0x1b
    &&& bytes[start + 1] == 0x5d
    &&& 0x30 <= bytes[start + 2] <= 0x32
    &&& bytes[start + 3] == 0x3b
    &&& foreground::fed(SnifferState::Normal, bytes.take(start)).0 is Normal
    &&& if bytes.last() == 0x07 {
        foreground::plain(bytes.subrange(start + 4, n - 1))
    } else {
        bytes.last() == 0x5c && start + 6 <= n && bytes[n - 2] == 0x1b && foreground::plain(
            bytes.subrange(start + 4, n - 2),
        )
    }
}

/// Where the detector stands says what the last bytes were: after ESC, after the
/// start of a sequence, after its code, inside its title, or after an ESC inside
/// it.
pub open spec fn stands(bytes: Seq<u8>, state: SnifferState) -> bool {
    let n = bytes.len();
    match state {
        SnifferState::Normal => true,
        SnifferState::AfterEsc => begun(bytes, n - 1),
        SnifferState::AfterOscOpen => begun(bytes, n - 2) && bytes[n - 1] == 0x5d,
        SnifferState::AfterOscCode => begun(bytes, n - 3) && bytes[n - 2] == 0x5d && 0x30
            <= bytes[n - 1] <= 0x32,
        SnifferState::InOscPayload => exists|start: int| #[trigger] inside(bytes, start, n as int),
        SnifferState::AfterPayloadEsc => bytes.last() == 0x1b && exists|start: int| #[trigger]
            inside(bytes, start, n - 1),
    }
}

/// Whether an ESC stands at this position, with nothing open before it.
pub open spec fn begun(bytes: Seq<u8>, start: int) -> bool {
    &&& 0 <= start < bytes.len()
    &&& bytes[start] == 0x1b
    &&& foreground::fed(SnifferState::Normal, bytes.take(start)).0 is Normal
}

/// Whether a title that starts at `start` goes on up to `end`.
pub open spec fn inside(bytes: Seq<u8>, start: int, end: int) -> bool {
    &&& begun(bytes, start)
    &&& start + 4 <= end <= bytes.len()
    &&& bytes[start + 1] == 0x5d
    &&& 0x30 <= bytes[start + 2] <= 0x32
    &&& bytes[start + 3] == 0x3b
    &&& foreground::plain(bytes.subrange(start + 4, end))
}

proof fn lemma_stands(bytes: Seq<u8>)
    ensures
        stands(bytes, foreground::fed(SnifferState::Normal, bytes).0),
    decreases bytes.len(),
{
    let n = bytes.len() as int;
    if n > 0 {
        let head = bytes.drop_last();
        lemma_stands(head);
        let before = foreground::fed(SnifferState::Normal, head).0;
        let after = foreground::fed(SnifferState::Normal, bytes).0;
        assert(bytes.take(n - 1) =~= head);
        if n >= 2 {
            assert(bytes.take(n - 2) =~= head.take(n - 2));
        }
        if n >= 3 {
            assert(bytes.take(n - 3) =~= head.take(n - 3));
        }
        match after {
            SnifferState::InOscPayload => {
                if before is AfterOscCode {
                    let start = n - 4;
                    assert(bytes.take(start) =~= head.take(start));
                    assert(bytes.subrange(start + 4, n) =~= Seq::<u8>::empty());
                    assert(inside(bytes, start, n));
                } else {
                    let start = choose|start: int| #[trigger] inside(head, start, n - 1);
                    assert(bytes.take(start) =~= head.take(start));
                    let title = bytes.subrange(start + 4, n);
                    let shorter = head.subrange(start + 4, n - 1);
                    assert forall|i: int| 0 <= i < title.len() implies #[trigger] title[i] != 0x07
                        && title[i] != 0x1b by {
                        if i < shorter.len() {
                            assert(title[i] == shorter[i]);
                        }
                    }
                    assert(inside(bytes, start, n));
                }
            },
            SnifferState::AfterPayloadEsc => {
                let start = choose|start: int| #[trigger] inside(head, start, n - 1);
                assert(bytes.take(start) =~= head.take(start));
                assert(bytes.subrange(start + 4, n - 1) =~= head.subrange(start + 4, n - 1));
                assert(inside(bytes, start, n - 1));
            },
            _ => {},
        }
    }
}

/// The detector tells of a title exactly where one ends: at a byte that completes
/// a title-set sequence from the start of a stream, and at no other.
pub proof fn law_titles_are_told_where_they_end(bytes: Seq<u8>)
    requires
        bytes.len() > 0,
    ensures
        told(bytes) <==> exists|start: int| #[trigger] title_from(bytes, start),
{
    let n = bytes.len() as int;
    let head = bytes.drop_last();
    lemma_stands(head);
    let before = foreground::fed(SnifferState::Normal, head).0;
    if told(bytes) {
        if before is InOscPayload {
            let start = choose|start: int| #[trigger] inside(head, start, n - 1);
            assert(bytes.take(start) =~= head.take(start));
            assert(bytes.subrange(start + 4, n - 1) =~= head.subrange(start + 4, n - 1));
            assert(title_from(bytes, start));
        } else {
            let start = choose|start: int| #[trigger] inside(head, start, n - 2);
            assert(bytes.take(start) =~= head.take(start));
            assert(bytes.subrange(start + 4, n - 2) =~= head.subrange(start + 4, n - 2));
            assert(bytes[n - 2] == head.last());
            assert(title_from(bytes, start));
        }
    }
    if exists|start: int| #[trigger] title_from(bytes, start) {
        let start = choose|start: int| #[trigger] title_from(bytes, start);
        let lead = bytes.take(start);
        let st = bytes.last() != 0x07;
        let end = if st {
            n - 2
        } else {
            n - 1
        };
        let title = bytes.subrange(start + 4, end);
        let code = bytes[start + 2];
        let open = seq![0x1bu8, 0x5d, code, 0x3b] + title;
        foreground::law_titles_are_recognised(code, title, st);
        if st {
            let more = open.push(0x1b);
            assert(head =~= lead + more);
            foreground::law_feeds_may_be_cut(SnifferState::Normal, lead, more);
            assert(more.drop_last() =~= open);
        } else {
            assert(head =~= lead + open);
            foreground::law_feeds_may_be_cut(SnifferState::Normal, lead, open);
        }
    }
}

/// Whether the last of some bytes makes the detector tell of a title.
pub open spec fn told(bytes: Seq<u8>) -> bool {
    foreground::sniffed(
        foreground::fed(SnifferState::Normal, bytes.drop_last()).0,
        bytes.last(),
    ).1
}

/// Feeding bytes tells of a title exactly where one of them does.
pub proof fn law_feeding_tells_of_titles(s: &mut OscSniffer, bytes: &[u8], saw: bool)
    requires
        old(s)@ is Normal,
        call_ensures(OscSniffer::feed, (s, bytes), saw),
    ensures
        saw <==> exists|k: int| 0 < k <= bytes@.len() && #[trigger] told(bytes@.take(k)),
{
    lemma_some_byte_tells(bytes@);
}

proof fn lemma_some_byte_tells(bytes: Seq<u8>)
    ensures
        foreground::fed(SnifferState::Normal, bytes).1 <==> exists|k: int|
            0 < k <= bytes.len() && #[trigger] told(bytes.take(k)),
    decreases bytes.len(),
{
    let n = bytes.len() as int;
    if n > 0 {
        let head = bytes.drop_last();
        lemma_some_byte_tells(head);
        assert(bytes.take(n) =~= bytes);
        assert(foreground::fed(SnifferState::Normal, bytes).1 == (foreground::fed(
            SnifferState::Normal,
            head,
        ).1 || told(bytes)));
        if foreground::fed(SnifferState::Normal, head).1 {
            let k = choose|k: int| 0 < k <= head.len() && #[trigger] told(head.take(k));
            assert(bytes.take(k) =~= head.take(k));
            assert(told(bytes.take(k)));
        }
        if told(bytes) {
            assert(told(bytes.take(n)));
        }
        assert forall|k: int| 0 < k <= n && #[trigger] told(bytes.take(k)) implies told(bytes)
            || foreground::fed(SnifferState::Normal, head).1 by {
            if k < n {
                assert(bytes.take(k) =~= head.take(k));
            }
        }
    }
}

// ---------------------------------------------------------------------------
// The probe
// ---------------------------------------------------------------------------

/// A look at the foreground process is due exactly where the quiet period after
/// the last title of a program is over, and the sample interval since the last
/// look is; where there was no such title or look, there is nothing to wait for.
pub proof fn law_when_looks_are_due(p: ProbeView, now: u128)
    ensures
        p.due(now) <==> {
            &&& p.last_real_title_at matches Some(at) ==> p.quiet_period == 0 || now >= at
                + p.quiet_period
            &&& p.last_sample matches Some(at) ==> p.sample_interval == 0 || now >= at
                + p.sample_interval
        },
{
}

/// A look that is due counts from then on, and sets the title where it is a new
/// one: not empty, and not the one that was set last. A look that is not due
/// changes nothing and sets none.
pub proof fn law_what_looks_lead_to(p: ProbeView, now: u128, info: Option<ProcessInfoView>)
    ensures
        ({
            let (end, out) = p.injected(now, info);
            let title = match info {
                Some(i) => foreground::title_of(i),
                None => seq![],
            };
            let new = p.due(now) && title.len() > 0 && title != p.last_title;
            &&& out is Some <==> new
            &&& out matches Some(bytes) ==> bytes == foreground::osc_title(title)
            &&& end.last_title == if new {
                title
            } else {
                p.last_title
            }
            &&& end.last_sample == if p.due(now) {
                Some(now)
            } else {
                p.last_sample
            }
            &&& end.last_real_title_at == p.last_real_title_at
            &&& end.sniffer == p.sniffer
            &&& end.sample_interval == p.sample_interval
            &&& end.quiet_period == p.quiet_period
        }),
{
}

/// Output is noted for the titles in it, and for nothing else: a title that ends
/// in it is noted with the time.
pub proof fn law_what_output_is_noted_for(p: ProbeView, bytes: Seq<u8>, now: u128)
    ensures
        ({
            let end = p.observed(bytes, now);
            let (state, saw) = foreground::fed(p.sniffer, bytes);
            &&& end.sniffer == state
            &&& saw ==> end.last_real_title_at == Some(now)
            &&& !saw ==> end.last_real_title_at == p.last_real_title_at
            &&& end.last_sample == p.last_sample
            &&& end.last_title == p.last_title
            &&& end.sample_interval == p.sample_interval
            &&& end.quiet_period == p.quiet_period
        }),
{
}

/// A new probe has seen nothing and waits half a second between looks and three
/// seconds after a title, unless it is given other times.
pub proof fn law_new_probes<C: Clock>(
    clock: C,
    probe: ForegroundProbe<C>,
    interval: u128,
    quiet: u128,
    timed: ForegroundProbe<C>,
    now: u128,
)
    requires
        call_ensures(ForegroundProbe::with_clock, (clock,), probe),
        call_ensures(ForegroundProbe::with_timing, (probe, interval, quiet), timed),
    ensures
        probe@.sample_interval == 500_000_000,
        probe@.quiet_period == 3_000_000_000,
        probe@.last_title.len() == 0,
        probe@.sniffer is Normal,
        probe@.due(now),
        timed@.due(now),
        timed@.sample_interval == interval,
        timed@.quiet_period == quiet,
        timed@.sniffer is Normal,
        timed@.last_title.len() == 0,
        probe.its_clock() == clock,
        timed.its_clock() == clock,
{
}

/// Asking the probe goes by what the clock says then: where a look is due, the
/// source is looked at, the look counts, and a new title is set; and otherwise
/// nothing changes.
pub proof fn law_asking_the_probe<C: Clock, S: ForegroundInfoSource>(
    probe: &mut ForegroundProbe<C>,
    source: &S,
    out: Option<Vec<u8>>,
)
    requires
        call_ensures(ForegroundProbe::maybe_inject, (probe, source), out),
    ensures
        exists|now: u128, info: Option<ProcessInfo>|
            {
                &&& #[trigger] asked(old(probe)@, now, info, final(probe)@, out)
                &&& call_ensures(C::now, (&old(probe).its_clock(),), now)
                &&& old(probe)@.due(now) ==> call_ensures(S::lookup, (source,), info)
            },
{
    let (now, info) = choose|now: u128, info: Option<ProcessInfo>|
        {
            &&& #[trigger] foreground::injects(
                old(probe)@,
                now,
                foreground::maybe_info(info),
                final(probe)@,
                foreground::maybe_bytes(out),
            )
            &&& call_ensures(C::now, (&old(probe).its_clock(),), now)
            &&& old(probe)@.due(now) ==> call_ensures(S::lookup, (source,), info)
        };
    law_what_looks_lead_to(old(probe)@, now, foreground::maybe_info(info));
    assert(asked(old(probe)@, now, info, final(probe)@, out));
}

/// Whether asking a probe at this time, while the foreground process is this, can
/// lead to this probe and this output.
pub open spec fn asked(
    p: ProbeView,
    now: u128,
    info: Option<ProcessInfo>,
    end: ProbeView,
    out: Option<Vec<u8>>,
) -> bool {
    let title = match info {
        Some(i) => foreground::title_of(i@),
        None => seq![],
    };
    if !p.due(now) {
        end == p && out is None
    } else if title.len() == 0 || title == p.last_title {
        end.last_sample == Some(now) && end.last_title == p.last_title && out is None
    } else {
        end.last_sample == Some(now) && end.last_title == title && (out matches Some(bytes)
            && bytes@ == foreground::osc_title(title))
    }
}

/// Output that is shown to the probe is noted exactly where it completes a title,
/// with what the clock says then.
pub proof fn law_showing_output_to_the_probe<C: Clock>(
    probe: &mut ForegroundProbe<C>,
    bytes: &[u8],
)
    requires
        call_ensures(ForegroundProbe::observe_outbound, (probe, bytes), ()),
    ensures
        !foreground::fed(old(probe)@.sniffer, bytes@).1 ==> final(probe)@.last_real_title_at
            == old(probe)@.last_real_title_at,
        foreground::fed(old(probe)@.sniffer, bytes@).1 ==> exists|now: u128|
            call_ensures(C::now, (&old(probe).its_clock(),), now)
                && final(probe)@.last_real_title_at == #[trigger] some_time(now),
        final(probe)@.sniffer == foreground::fed(old(probe)@.sniffer, bytes@).0,
        final(probe)@.last_sample == old(probe)@.last_sample,
        final(probe)@.last_title == old(probe)@.last_title,
{
    if foreground::fed(old(probe)@.sniffer, bytes@).1 {
        let now = choose|now: u128| #[trigger]
            foreground::observes(old(probe)@, bytes@, now, final(probe)@) && call_ensures(
                C::now,
                (&old(probe).its_clock(),),
                now,
            );
        assert(final(probe)@.last_real_title_at == some_time(now));
    }
}

/// A time that is known.
pub open spec fn some_time(now: u128) -> Option<u128> {
    Some(now)
}

// ---------------------------------------------------------------------------
// Looking up processes
// ---------------------------------------------------------------------------

/// A process is known exactly where its name could be read: the name is what was
/// read, without the white space at its end, such as a line feed.
pub proof fn law_processes_are_known_by_name(
    comm: Option<String>,
    cwd: Option<UnixPath>,
    info: Option<ProcessInfo>,
    name: Seq<char>,
    trail: Seq<char>,
)
    requires
        call_ensures(lookup_process_info, (comm, cwd), info),
        text_laws::tight(name),
        name.len() > 0,
        text_laws::blank(trail),
    ensures
        info is Some <==> comm is Some,
        info matches Some(i) ==> config::maybe_path(i.cwd) == config::maybe_path(cwd),
        (comm matches Some(c) && c@ == name + trail) ==> (info matches Some(i) && i.name@ == name),
{
    text_laws::law_trimming_takes_white_ends(seq![], name, trail);
    assert(Seq::<char>::empty() + name + trail =~= name + trail);
    assert(Seq::<char>::empty() + name =~= name);
}

/// The name that macOS answers with is as many bytes of its buffer as it says, and
/// none where it says that there are none.
pub proof fn law_macos_names(buf: &[u8], len: i32, name: Option<String>, said: Seq<char>)
    requires
        len <= buf@.len(),
        call_ensures(macos_proc_name, (buf, len), name),
    ensures
        name is Some <==> len > 0,
        len > 0 && buf@.take(len as int) == encode_utf8(said) ==> (name matches Some(n) && n@
            == said),
{
    encode_utf8_valid_utf8(said);
    encode_utf8_decode_utf8(said);
}

/// The directory that macOS answers with ends at the first zero byte of its
/// buffer; an empty one, and a buffer without a zero byte, are no answer.
pub proof fn law_macos_directories(buf: &[u8], dir: Option<UnixPath>, n: int)
    requires
        call_ensures(macos_proc_cwd, (buf,), dir),
    ensures
        0 < n < buf@.len() && buf@[n] == 0 && (forall|i: int|
            0 <= i < n ==> #[trigger] buf@[i] != 0) ==> (dir matches Some(d) && d@ == buf@.take(
            n,
        )),
        buf@.len() > 0 && buf@[0] == 0 ==> dir is None,
        !buf@.contains(0u8) ==> dir is None,
{
    if 0 < n < buf@.len() && buf@[n] == 0 && (forall|i: int|
        0 <= i < n ==> #[trigger] buf@[i] != 0) {
        foreground::lemma_before_nul(buf@, n);
    }
    if buf@.len() > 0 && buf@[0] == 0 {
        foreground::lemma_before_nul(buf@, 0);
    }
}

} // verus!
