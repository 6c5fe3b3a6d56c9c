//! Terminal titles for programs that set none.
//!
//! Programs advertise the terminal title with OSC 0/1/2 escape sequences. For
//! programs that do not, the probe makes up a title from the foreground process
//! and its working directory, and hands out an OSC 0 sequence to inject between
//! two chunks of output. It keeps quiet for a while after a program has set a
//! title itself, looks at the foreground process only now and then, and does not
//! repeat itself.
//!
//! Times are nanoseconds since some fixed moment.

use vstd::prelude::*;
use vstd::slice::*;
use vstd::string::*;
use vstd::utf8::*;

use crate::bytes::push_bytes;
use crate::config;
use crate::path;
use crate::path::UnixPath;
use crate::text;
use crate::text::{
    chars_of, copy_text, string_of, text_eq, text_from_utf8_lossy, trimmed_end,
};

verus! {

/// Minimum interval between two looks at the foreground process.
pub const SAMPLE_INTERVAL: u128 = 500_000_000;

/// How long after a title set by a program no title is made up.
pub const REAL_TITLE_QUIET_PERIOD: u128 = 3_000_000_000;

/// What is known of the foreground process.
#[derive(Debug, Clone, PartialEq, Eq)]
pub struct ProcessInfo {
    pub name: String,
    pub cwd: Option<UnixPath>,
}

/// What a [`ProcessInfo`] says.
#[verifier::ext_equal]
pub struct ProcessInfoView {
    pub name: Seq<char>,
    pub cwd: Option<Seq<u8>>,
}

impl View for ProcessInfo {
    type V = ProcessInfoView;

    open spec fn view(&self) -> ProcessInfoView {
        ProcessInfoView { name: self.name@, cwd: config::maybe_path(self.cwd) }
    }
}

/// A source of the current time.
pub trait Clock {
    /// The current time, in nanoseconds since some fixed moment.
    fn now(&self) -> u128;
}

/// A source of what is known of the foreground process.
pub trait ForegroundInfoSource {
    /// The foreground process, where it is known.
    fn lookup(&self) -> Option<ProcessInfo>;
}

/// `std::time::Instant`, a moment of the system's monotonic clock.
#[verifier::external_type_specification]
#[verifier::external_body]
pub struct ExInstant(std::time::Instant);

/// `std::time::Instant::now` gives the current moment; nothing is claimed of
/// it.
#[verifier::external_body]
fn current_moment() -> std::time::Instant {
    std::time::Instant::now()
}

/// The time from one moment to another, in nanoseconds.
pub uninterp spec fn nanos_since(from: std::time::Instant, to: std::time::Instant) -> u128;

/// `std::time::Instant::saturating_duration_since` gives the time from one
/// moment to another, which depends on the two moments alone. How large it is
/// for given moments is left unsaid.
#[verifier::external_body]
fn nanos_between(from: &std::time::Instant, to: &std::time::Instant) -> (nanos: u128)
    ensures
        nanos == nanos_since(*from, *to),
{
    to.saturating_duration_since(*from).as_nanos()
}

/// The system's clock.
pub struct SystemClock {
    origin: std::time::Instant,
}

impl SystemClock {
    /// The moment that this clock counts from.
    pub closed spec fn origin(&self) -> std::time::Instant {
        self.origin
    }

    /// A clock that counts from now on. Which moment that is depends on the
    /// time, and nothing is claimed of it.
    pub fn new() -> SystemClock {
        SystemClock { origin: current_moment() }
    }
}

impl Clock for SystemClock {
    /// The time from the moment that this clock counts from to another moment,
    /// the current one.
    fn now(&self) -> (nanos: u128)
        ensures
            exists|moment: std::time::Instant| nanos == #[trigger] nanos_since(
                self.origin(),
                moment,
            ),
    {
        let moment = current_moment();
        let nanos: u128 = nanos_between(&self.origin, &moment);
        assert(nanos == nanos_since(self.origin(), moment));
        nanos
    }
}

// ---------------------------------------------------------------------------
// OSC sniffer
// ---------------------------------------------------------------------------

/// How much of an OSC 0/1/2 sequence has been seen.
#[derive(Debug, Clone, Copy, PartialEq, Eq, Structural)]
pub enum SnifferState {
    Normal,
    /// Saw `ESC`.
    AfterEsc,
    /// Saw `ESC ]`.
    AfterOscOpen,
    /// Saw `ESC ] [012]`, expecting `;`.
    AfterOscCode,
    /// Inside the OSC payload, looking for its end.
    InOscPayload,
    /// Saw `ESC` inside the payload, expecting `\`.
    AfterPayloadEsc,
}

/// The state after one more byte, and whether that byte completes a sequence.
pub open spec fn sniffed(state: SnifferState, b: u8) -> (SnifferState, bool) {
    match state {
        SnifferState::Normal => if b == 0x1b {
            (SnifferState::AfterEsc, false)
        } else {
            (SnifferState::Normal, false)
        },
        SnifferState::AfterEsc => if b == 0x5d {
            (SnifferState::AfterOscOpen, false)
        } else {
            (SnifferState::Normal, false)
        },
        SnifferState::AfterOscOpen => if 0x30 <= b <= 0x32 {
            (SnifferState::AfterOscCode, false)
        } else {
            (SnifferState::Normal, false)
        },
        SnifferState::AfterOscCode => if b == 0x3b {
            (SnifferState::InOscPayload, false)
        } else {
            (SnifferState::Normal, false)
        },
        SnifferState::InOscPayload => if b == 0x07 {
            (SnifferState::Normal, true)
        } else if b == 0x1b {
            (SnifferState::AfterPayloadEsc, false)
        } else {
            (SnifferState::InOscPayload, false)
        },
        SnifferState::AfterPayloadEsc => (SnifferState::Normal, b == 0x5c),
    }
}

/// The state after more bytes, and whether any of them completes a sequence.
pub open spec fn fed(state: SnifferState, bytes: Seq<u8>) -> (SnifferState, bool)
    decreases bytes.len(),
{
    if bytes.len() == 0 {
        (state, false)
    } else {
        let (before, saw) = fed(state, bytes.drop_last());
        let (after, completes) = sniffed(before, bytes.last());
        (after, saw || completes)
    }
}

/// A detector of OSC 0/1/2 title-set sequences in a stream of bytes:
/// `ESC ] (0|1|2) ; <title bytes> (BEL | ESC \)`.
pub struct OscSniffer {
    state: SnifferState,
}

impl View for OscSniffer {
    type V = SnifferState;

    closed spec fn view(&self) -> SnifferState {
        self.state
    }
}

impl Default for OscSniffer {
    /// A detector at the start of a stream.
    fn default() -> (sniffer: OscSniffer)
        ensures
            sniffer@ == SnifferState::Normal,
    {
        OscSniffer { state: SnifferState::Normal }
    }
}

fn sniff(state: SnifferState, b: u8) -> (r: (SnifferState, bool))
    ensures
        r == sniffed(state, b),
{
    match state {
        SnifferState::Normal => {
            if b == 0x1b {
                (SnifferState::AfterEsc, false)
            } else {
                (SnifferState::Normal, false)
            }
        },
        SnifferState::AfterEsc => {
            if b == 0x5d {
                (SnifferState::AfterOscOpen, false)
            } else {
                (SnifferState::Normal, false)
            }
        },
        SnifferState::AfterOscOpen => {
            if b >= 0x30 && b <= 0x32 {
                (SnifferState::AfterOscCode, false)
            } else {
                (SnifferState::Normal, false)
            }
        },
        SnifferState::AfterOscCode => {
            if b == 0x3b {
                (SnifferState::InOscPayload, false)
            } else {
                (SnifferState::Normal, false)
            }
        },
        SnifferState::InOscPayload => {
            if b == 0x07 {
                (SnifferState::Normal, true)
            } else if b == 0x1b {
                (SnifferState::AfterPayloadEsc, false)
            } else {
                (SnifferState::InOscPayload, false)
            }
        },
        SnifferState::AfterPayloadEsc => (SnifferState::Normal, b == 0x5c),
    }
}

impl OscSniffer {
    /// Takes in bytes, and answers whether a title-set sequence was completed
    /// among them.
    pub fn feed(&mut self, bytes: &[u8]) -> (saw_complete: bool)
        ensures
            final(self)@ == fed(old(self)@, bytes@).0,
            saw_complete == fed(old(self)@, bytes@).1,
    {
        let mut saw_complete: bool = false;
        let mut i: usize = 0;
        assert(bytes@.take(0) =~= Seq::<u8>::empty());
        while i < bytes.len()
            invariant
                i <= bytes@.len(),
                (self.state, saw_complete) == fed(old(self)@, bytes@.take(i as int)),
            decreases bytes@.len() - i,
        {
            assert(bytes@.take(i + 1).drop_last() =~= bytes@.take(i as int));
            let (state, completes) = sniff(self.state, bytes[i]);
            self.state = state;
            if completes {
                saw_complete = true;
            }
            i = i + 1;
        }
        assert(bytes@.take(i as int) =~= bytes@);
        saw_complete
    }
}

// ---------------------------------------------------------------------------
// Titles
// ---------------------------------------------------------------------------

/// The title for a program of this name in a directory of this name.
pub open spec fn titled(cwd_name: Seq<char>, name: Seq<char>) -> Seq<char> {
    if cwd_name.len() == 0 {
        name
    } else {
        cwd_name + " — "@ + name
    }
}

/// The name of a working directory: its last part, where it has one.
pub open spec fn cwd_name(cwd: Option<Seq<u8>>) -> Seq<char> {
    match cwd {
        Some(dir) => match path::file_name_of(dir) {
            Some(name) => text::utf8_lossy(name),
            None => seq![],
        },
        None => seq![],
    }
}

/// The title for the foreground process.
pub open spec fn title_of(info: ProcessInfoView) -> Seq<char> {
    titled(cwd_name(info.cwd), info.name)
}

/// The title for the foreground process where its working directory has a name
/// that is valid UTF-8, or none.
pub open spec fn plain_title(info: ProcessInfoView) -> Option<Seq<char>> {
    match info.cwd {
        Some(dir) => match path::file_name_of(dir) {
            Some(name) => if valid_utf8(name) {
                Some(titled(decode_utf8(name), info.name))
            } else {
                None
            },
            None => Some(info.name),
        },
        None => Some(info.name),
    }
}

/// The title for a program of this name in a directory of this name.
pub fn make_title(cwd_name: &str, name: &str) -> (title: String)
    ensures
        title@ == titled(cwd_name@, name@),
{
    let mut title: String = copy_text(cwd_name);
    if chars_of(cwd_name).len() > 0 {
        title.append(" — ");
        title.append(name);
        title
    } else {
        copy_text(name)
    }
}

/// The title for the foreground process. A directory whose name is valid UTF-8
/// is named as it is.
pub fn format_title(info: &ProcessInfo) -> (title: String)
    ensures
        title@ == title_of(info@),
        plain_title(info@) matches Some(plain) ==> title@ == plain,
{
    let dir_name: String = match &info.cwd {
        Some(dir) => {
            match dir.file_name() {
                Some(name) => text_from_utf8_lossy(name),
                None => string_of(&[]),
            }
        },
        None => string_of(&[]),
    };
    make_title(dir_name.as_str(), info.name.as_str())
}

/// The OSC 0 sequence that sets a title.
pub open spec fn osc_title(title: Seq<char>) -> Seq<u8> {
    seq![0x1bu8, 0x5d, 0x30, 0x3b] + encode_utf8(title) + seq![0x07u8]
}

/// The OSC 0 sequence that sets a title.
pub fn synthesise_osc_title(title: &str) -> (out: Vec<u8>)
    ensures
        out@ == osc_title(title@),
{
    let mut out: Vec<u8> = Vec::new();
    out.push(0x1b);
    out.push(0x5d);
    out.push(0x30);
    out.push(0x3b);
    push_bytes(&mut out, title.as_bytes());
    out.push(0x07);
    assert(out@ =~= osc_title(title@));
    out
}

// ---------------------------------------------------------------------------
// The probe
// ---------------------------------------------------------------------------

/// What a [`ForegroundProbe`] remembers.
#[verifier::ext_equal]
pub struct ProbeView {
    pub last_sample: Option<u128>,
    pub last_title: Seq<char>,
    pub last_real_title_at: Option<u128>,
    pub sniffer: SnifferState,
    pub sample_interval: u128,
    pub quiet_period: u128,
}

/// The probe for the title of one session.
pub struct ForegroundProbe<C: Clock = SystemClock> {
    last_sample: Option<u128>,
    last_synthesised_title: String,
    last_real_title_at: Option<u128>,
    sniffer: OscSniffer,
    sample_interval: u128,
    real_title_quiet_period: u128,
    clock: C,
}

impl<C: Clock> View for ForegroundProbe<C> {
    type V = ProbeView;

    closed spec fn view(&self) -> ProbeView {
        ProbeView {
            last_sample: self.last_sample,
            last_title: self.last_synthesised_title@,
            last_real_title_at: self.last_real_title_at,
            sniffer: self.sniffer@,
            sample_interval: self.sample_interval,
            quiet_period: self.real_title_quiet_period,
        }
    }
}

/// A probe that has seen nothing.
pub open spec fn new_probe() -> ProbeView {
    ProbeView {
        last_sample: None,
        last_title: seq![],
        last_real_title_at: None,
        sniffer: SnifferState::Normal,
        sample_interval: SAMPLE_INTERVAL,
        quiet_period: REAL_TITLE_QUIET_PERIOD,
    }
}

/// Whether less than `period` has passed since a time; the clock counts as
/// standing where it went back.
pub open spec fn within(since: Option<u128>, now: u128, period: u128) -> bool {
    match since {
        Some(at) => (if now >= at {
            now - at
        } else {
            0
        }) < period,
        None => false,
    }
}

impl ProbeView {
    /// The probe after output seen at time `now`.
    pub open spec fn observed(self, bytes: Seq<u8>, now: u128) -> ProbeView {
        let (sniffer, saw) = fed(self.sniffer, bytes);
        ProbeView {
            sniffer,
            last_real_title_at: if saw {
                Some(now)
            } else {
                self.last_real_title_at
            },
            ..self
        }
    }

    /// Whether it is time to look at the foreground process.
    pub open spec fn due(self, now: u128) -> bool {
        !within(self.last_real_title_at, now, self.quiet_period) && !within(
            self.last_sample,
            now,
            self.sample_interval,
        )
    }

    /// The probe once the foreground process has been looked at, and the
    /// sequence to inject.
    pub open spec fn looked(self, info: Option<ProcessInfoView>) -> (ProbeView, Option<Seq<u8>>) {
        match info {
            None => (self, None),
            Some(i) => self.offered(title_of(i)),
        }
    }

    /// The probe once it was offered a title, and the sequence to inject: none
    /// where there is nothing to say or it has been said.
    pub open spec fn offered(self, title: Seq<char>) -> (ProbeView, Option<Seq<u8>>) {
        if title.len() == 0 || title == self.last_title {
            (self, None)
        } else {
            (ProbeView { last_title: title, ..self }, Some(osc_title(title)))
        }
    }

    /// The probe after it was asked at time `now` while the foreground process
    /// was this, and the sequence to inject.
    pub open spec fn injected(self, now: u128, info: Option<ProcessInfoView>) -> (
        ProbeView,
        Option<Seq<u8>>,
    ) {
        if self.due(now) {
            (ProbeView { last_sample: Some(now), ..self }).looked(info)
        } else {
            (self, None)
        }
    }
}

/// What is known of the foreground process, where anything is.
pub open spec fn maybe_info(info: Option<ProcessInfo>) -> Option<ProcessInfoView> {
    match info {
        Some(i) => Some(i@),
        None => None,
    }
}

/// Bytes, where there are any.
pub open spec fn maybe_bytes(r: Option<Vec<u8>>) -> Option<Seq<u8>> {
    match r {
        Some(v) => Some(v@),
        None => None,
    }
}

/// Whether `after` and `r` come of offering the probe `before` the title of
/// the foreground process, where that title is plain.
pub open spec fn plainly_looks(
    before: ProbeView,
    info: Option<ProcessInfoView>,
    after: ProbeView,
    r: Option<Seq<u8>>,
) -> bool {
    info matches Some(i) ==> plain_title(i) matches Some(title) ==> before.offered(title) == (
        after,
        r,
    )
}

/// Whether `after` and `r` come of asking the probe `before` at time `now`
/// while the foreground process was `info`.
pub open spec fn injects(
    before: ProbeView,
    now: u128,
    info: Option<ProcessInfoView>,
    after: ProbeView,
    r: Option<Seq<u8>>,
) -> bool {
    &&& before.injected(now, info) == (after, r)
    &&& before.due(now) ==> plainly_looks(
        (ProbeView { last_sample: Some(now), ..before }),
        info,
        after,
        r,
    )
}

/// Whether `after` comes of showing the probe `before` output at time `now`.
pub open spec fn observes(before: ProbeView, bytes: Seq<u8>, now: u128, after: ProbeView) -> bool {
    after == before.observed(bytes, now)
}

fn recent(since: Option<u128>, now: u128, period: u128) -> (r: bool)
    ensures
        r == within(since, now, period),
{
    match since {
        Some(at) => {
            let passed: u128 = if now >= at {
                now - at
            } else {
                0
            };
            passed < period
        },
        None => false,
    }
}

impl ForegroundProbe<SystemClock> {
    /// A probe with the system's clock.
    pub fn new() -> (probe: Self)
        ensures
            probe@ == new_probe(),
    {
        Self::with_clock(SystemClock::new())
    }
}

impl Default for ForegroundProbe<SystemClock> {
    fn default() -> (probe: Self)
        ensures
            probe@ == new_probe(),
    {
        Self::new()
    }
}

impl<C: Clock> ForegroundProbe<C> {
    /// The clock that this probe asks for the time.
    pub closed spec fn its_clock(&self) -> C {
        self.clock
    }

    /// A probe with this clock.
    pub fn with_clock(clock: C) -> (probe: Self)
        ensures
            probe@ == new_probe(),
            probe.its_clock() == clock,
    {
        let probe = Self {
            last_sample: None,
            last_synthesised_title: string_of(&[]),
            last_real_title_at: None,
            sniffer: OscSniffer::default(),
            sample_interval: SAMPLE_INTERVAL,
            real_title_quiet_period: REAL_TITLE_QUIET_PERIOD,
            clock,
        };
        assert(probe@ =~= new_probe());
        probe
    }

    /// The probe with other times than [`SAMPLE_INTERVAL`] and
    /// [`REAL_TITLE_QUIET_PERIOD`].
    pub fn with_timing(self, sample_interval: u128, real_title_quiet_period: u128) -> (probe: Self)
        ensures
            probe@ == (ProbeView {
                sample_interval,
                quiet_period: real_title_quiet_period,
                ..self@
            }),
            probe.its_clock() == self.its_clock(),
    {
        let mut probe = self;
        probe.sample_interval = sample_interval;
        probe.real_title_quiet_period = real_title_quiet_period;
        probe
    }

    /// Shows the probe output that is about to be sent, at time `now`.
    pub fn observe_at(&mut self, bytes: &[u8], now: u128)
        ensures
            final(self)@ == old(self)@.observed(bytes@, now),
            final(self).its_clock() == old(self).its_clock(),
    {
        if self.sniffer.feed(bytes) {
            self.last_real_title_at = Some(now);
        }
        assert(self@ =~= old(self)@.observed(bytes@, now));
    }

    /// Shows the probe output that is about to be sent. Where it completes a
    /// title, the time counts that the clock then gives.
    pub fn observe_outbound(&mut self, bytes: &[u8])
        ensures
            if fed(old(self)@.sniffer, bytes@).1 {
                exists|now: u128| #[trigger]
                    observes(old(self)@, bytes@, now, final(self)@) && call_ensures(
                        C::now,
                        (&old(self).its_clock(),),
                        now,
                    )
            } else {
                final(self)@ == (ProbeView {
                    sniffer: fed(old(self)@.sniffer, bytes@).0,
                    ..old(self)@
                })
            },
            final(self).its_clock() == old(self).its_clock(),
    {
        let ghost before = self@;
        if self.sniffer.feed(bytes) {
            let now: u128 = self.clock.now();
            self.last_real_title_at = Some(now);
            assert(self@ =~= before.observed(bytes@, now));
            assert(observes(before, bytes@, now, self@));
        } else {
            assert(self@ =~= ProbeView { sniffer: fed(before.sniffer, bytes@).0, ..before });
        }
    }

    /// Whether it is time to look at the foreground process; if so, the look
    /// counts as taken.
    pub fn take_sample(&mut self, now: u128) -> (due: bool)
        ensures
            due == old(self)@.due(now),
            final(self)@ == if due {
                ProbeView { last_sample: Some(now), ..old(self)@ }
            } else {
                old(self)@
            },
            final(self).its_clock() == old(self).its_clock(),
    {
        if recent(self.last_real_title_at, now, self.real_title_quiet_period) {
            return false;
        }
        if recent(self.last_sample, now, self.sample_interval) {
            return false;
        }
        self.last_sample = Some(now);
        true
    }

    /// The sequence to inject for the foreground process, where one is due.
    pub fn inject_for(&mut self, info: Option<ProcessInfo>) -> (out: Option<Vec<u8>>)
        ensures
            old(self)@.looked(maybe_info(info)) == (final(self)@, maybe_bytes(out)),
            plainly_looks(old(self)@, maybe_info(info), final(self)@, maybe_bytes(out)),
            final(self).its_clock() == old(self).its_clock(),
    {
        match info {
            None => None,
            Some(i) => {
                let title: String = format_title(&i);
                if chars_of(title.as_str()).len() == 0 || text_eq(
                    title.as_str(),
                    self.last_synthesised_title.as_str(),
                ) {
                    return None;
                }
                let out: Vec<u8> = synthesise_osc_title(title.as_str());
                let ghost said = title@;
                self.last_synthesised_title = title;
                assert(self@ =~= ProbeView { last_title: said, ..old(self)@ });
                Some(out)
            },
        }
    }

    /// The sequence to inject at time `now`, where one is due. The foreground
    /// process is looked at once where it is time to, and not at all otherwise:
    /// `look` need not be callable then.
    pub fn inject_with<F: FnOnce() -> Option<ProcessInfo>>(&mut self, now: u128, look: F) -> (out:
        Option<Vec<u8>>)
        requires
            old(self)@.due(now) ==> call_requires(look, ()),
        ensures
            if old(self)@.due(now) {
                exists|info: Option<ProcessInfo>| #[trigger]
                    call_ensures(look, (), info) && injects(
                        old(self)@,
                        now,
                        maybe_info(info),
                        final(self)@,
                        maybe_bytes(out),
                    )
            } else {
                final(self)@ == old(self)@ && out is None
            },
            final(self).its_clock() == old(self).its_clock(),
    {
        let ghost before = self@;
        if !self.take_sample(now) {
            return None;
        }
        let info: Option<ProcessInfo> = look();
        let out: Option<Vec<u8>> = self.inject_for(info);
        assert(injects(before, now, maybe_info(info), self@, maybe_bytes(out)));
        out
    }

    /// The sequence to inject after the most recent output, where one is due at
    /// the time that the clock gives, for the process that the source then gives.
    pub fn maybe_inject<S: ForegroundInfoSource>(&mut self, source: &S) -> (out: Option<Vec<u8>>)
        ensures
            exists|now: u128, info: Option<ProcessInfo>|
                {
                    &&& #[trigger] injects(
                        old(self)@,
                        now,
                        maybe_info(info),
                        final(self)@,
                        maybe_bytes(out),
                    )
                    &&& call_ensures(C::now, (&old(self).its_clock(),), now)
                    &&& old(self)@.due(now) ==> call_ensures(S::lookup, (source,), info)
                },
            final(self).its_clock() == old(self).its_clock(),
    {
        let ghost before = self@;
        let now: u128 = self.clock.now();
        let look = || -> (info: Option<ProcessInfo>)
            ensures
                call_ensures(S::lookup, (source,), info),
            { source.lookup() };
        let out: Option<Vec<u8>> = self.inject_with(now, look);
        assert(before.due(now) || injects(before, now, maybe_info(None), self@, maybe_bytes(out)));
        out
    }
}

// ---------------------------------------------------------------------------
// Process lookup
// ---------------------------------------------------------------------------

/// What is known of a process on Linux, from its `comm` file and the target of
/// its `cwd` link, as far as they could be read.
pub fn lookup_process_info(comm: Option<String>, cwd: Option<UnixPath>) -> (info: Option<
    ProcessInfo,
>)
    ensures
        maybe_info(info) == match comm {
            Some(c) => Some(
                (ProcessInfoView { name: text::trim_end(c@), cwd: config::maybe_path(cwd) }),
            ),
            None => None,
        },
{
    match comm {
        Some(c) => {
            let cs: Vec<char> = chars_of(c.as_str());
            let name: String = string_of(trimmed_end(cs.as_slice()));
            Some(ProcessInfo { name, cwd })
        },
        None => None,
    }
}

/// The name of a process on macOS, from what `proc_name` answered: a count, and
/// that many bytes at the start of a buffer. Valid UTF-8 is read as it is.
pub fn macos_proc_name(buf: &[u8], len: i32) -> (name: Option<String>)
    requires
        len <= buf@.len(),
    ensures
        config::maybe_text(name) == if len <= 0 {
            None
        } else {
            Some(text::utf8_lossy(buf@.take(len as int)))
        },
        len > 0 && valid_utf8(buf@.take(len as int)) ==> config::maybe_text(name) == Some(
            decode_utf8(buf@.take(len as int)),
        ),
{
    if len <= 0 {
        return None;
    }
    let n: usize = len as usize;
    assert(buf@.subrange(0, n as int) =~= buf@.take(len as int));
    Some(text_from_utf8_lossy(slice_subrange(buf, 0, n)))
}

/// The bytes before the first zero byte, where there is one; none otherwise.
pub open spec fn before_nul(bytes: Seq<u8>) -> Seq<u8>
    decreases bytes.len(),
{
    if bytes.contains(0u8) {
        if bytes[0] == 0 {
            seq![]
        } else {
            seq![bytes[0]] + before_nul(bytes.skip(1))
        }
    } else {
        seq![]
    }
}

pub proof fn lemma_before_nul(bytes: Seq<u8>, n: int)
    requires
        0 <= n < bytes.len(),
        bytes[n] == 0,
        forall|i: int| 0 <= i < n ==> bytes[i] != 0,
    ensures
        before_nul(bytes) == bytes.take(n),
    decreases n,
{
    assert(bytes.contains(0u8));
    if n == 0 {
        assert(before_nul(bytes) =~= bytes.take(0));
    } else {
        lemma_before_nul(bytes.skip(1), n - 1);
        assert(bytes.take(n) =~= seq![bytes[0]] + bytes.skip(1).take(n - 1));
    }
}

/// The working directory of a process on macOS, from the path buffer that
/// `proc_pidinfo` filled.
pub fn macos_proc_cwd(path_bytes: &[u8]) -> (dir: Option<UnixPath>)
    ensures
        config::maybe_path(dir) == if before_nul(path_bytes@).len() == 0 {
            None
        } else {
            Some(before_nul(path_bytes@))
        },
{
    let mut i: usize = 0;
    while i < path_bytes.len()
        invariant
            i <= path_bytes@.len(),
            forall|j: int| 0 <= j < i ==> path_bytes@[j] != 0,
        decreases path_bytes@.len() - i,
    {
        if path_bytes[i] == 0 {
            proof {
                lemma_before_nul(path_bytes@, i as int);
            }
            if i == 0 {
                return None;
            }
            let bytes: Vec<u8> = slice_to_vec(slice_subrange(path_bytes, 0, i));
            assert(bytes@ =~= path_bytes@.take(i as int));
            return Some(UnixPath { bytes });
        }
        i = i + 1;
    }
    assert(!path_bytes@.contains(0u8));
    None
}

// ---------------------------------------------------------------------------
// What holds of the probe
// ---------------------------------------------------------------------------

/// It does not matter how a stream is cut into pieces: a sequence that spans two
/// of them is recognised as in one.
pub proof fn law_feeds_may_be_cut(state: SnifferState, a: Seq<u8>, b: Seq<u8>)
    ensures
        fed(state, a + b).0 == fed(fed(state, a).0, b).0,
        fed(state, a + b).1 == (fed(state, a).1 || fed(fed(state, a).0, b).1),
    decreases b.len(),
{
    if b.len() == 0 {
        assert(a + b =~= a);
    } else {
        assert((a + b).drop_last() =~= a + b.drop_last());
        law_feeds_may_be_cut(state, a, b.drop_last());
    }
}

/// Whether bytes can be a title: they end no OSC sequence.
pub open spec fn plain(title: Seq<u8>) -> bool {
    forall|i: int| 0 <= i < title.len() ==> #[trigger] title[i] != 0x07 && title[i] != 0x1b
}

proof fn lemma_payload(title: Seq<u8>)
    requires
        plain(title),
    ensures
        fed(SnifferState::InOscPayload, title) == (SnifferState::InOscPayload, false),
    decreases title.len(),
{
    if title.len() > 0 {
        lemma_payload(title.drop_last());
        assert(title.last() == title[title.len() - 1]);
    }
}

/// A title-set sequence, with either ending, is recognised at its last byte,
/// and the detector is then where it was before it.
pub proof fn law_titles_are_recognised(code: u8, title: Seq<u8>, st: bool)
    requires
        0x30 <= code <= 0x32,
        plain(title),
    ensures
        ({
            let start = seq![0x1bu8, 0x5d, code, 0x3b] + title;
            let end = if st {
                seq![0x1bu8, 0x5c]
            } else {
                seq![0x07u8]
            };
            &&& fed(SnifferState::Normal, start) == (SnifferState::InOscPayload, false)
            &&& fed(SnifferState::Normal, start + end) == (SnifferState::Normal, true)
        }),
{
    let head = seq![0x1bu8, 0x5d, code, 0x3b];
    let start = head + title;
    let end = if st {
        seq![0x1bu8, 0x5c]
    } else {
        seq![0x07u8]
    };
    assert(head.drop_last() =~= seq![0x1bu8, 0x5d, code]);
    assert(head.drop_last().drop_last() =~= seq![0x1bu8, 0x5d]);
    assert(head.drop_last().drop_last().drop_last() =~= seq![0x1bu8]);
    assert(head.drop_last().drop_last().drop_last().drop_last() =~= Seq::<u8>::empty());
    reveal_with_fuel(fed, 5);
    assert(fed(SnifferState::Normal, head) == (SnifferState::InOscPayload, false));
    law_feeds_may_be_cut(SnifferState::Normal, head, title);
    lemma_payload(title);
    law_feeds_may_be_cut(SnifferState::Normal, start, end);
    if st {
        assert(end.drop_last() =~= seq![0x1bu8]);
        assert(end.drop_last().drop_last() =~= Seq::<u8>::empty());
    } else {
        assert(end.drop_last() =~= Seq::<u8>::empty());
    }
}

/// Bytes without an escape character never complete a sequence at the start of
/// a stream.
pub proof fn law_plain_text_is_no_title(bytes: Seq<u8>)
    requires
        !bytes.contains(0x1bu8),
    ensures
        fed(SnifferState::Normal, bytes) == (SnifferState::Normal, false),
    decreases bytes.len(),
{
    if bytes.len() > 0 {
        let head = bytes.drop_last();
        assert(!head.contains(0x1bu8)) by {
            if head.contains(0x1bu8) {
                let i = choose|i: int| 0 <= i < head.len() && head[i] == 0x1b;
                assert(bytes[i] == 0x1b);
            }
        }
        law_plain_text_is_no_title(head);
        assert(bytes[bytes.len() - 1] == bytes.last());
    }
}

proof fn lemma_unescaped_payload(bytes: Seq<u8>)
    requires
        !bytes.contains(0x1bu8),
    ensures
        fed(SnifferState::InOscPayload, bytes) == (SnifferState::InOscPayload, false) || fed(
            SnifferState::InOscPayload,
            bytes,
        ) == (SnifferState::Normal, true),
    decreases bytes.len(),
{
    if bytes.len() > 0 {
        let head = bytes.drop_last();
        assert(!head.contains(0x1bu8)) by {
            if head.contains(0x1bu8) {
                let i = choose|i: int| 0 <= i < head.len() && head[i] == 0x1b;
                assert(bytes[i] == 0x1b);
            }
        }
        lemma_unescaped_payload(head);
        assert(bytes[bytes.len() - 1] == bytes.last());
    }
}

/// A made-up title is a title-set sequence like any other: the detector itself
/// recognises it, and is then where it was before it. The title holds no escape
/// character.
pub proof fn law_made_up_titles_are_titles(title: Seq<char>)
    requires
        !encode_utf8(title).contains(0x1bu8),
    ensures
        fed(SnifferState::Normal, osc_title(title)) == (SnifferState::Normal, true),
{
    let bytes = encode_utf8(title);
    let head = seq![0x1bu8, 0x5d, 0x30, 0x3b];
    let end = seq![0x07u8];
    law_titles_are_recognised(0x30, seq![], false);
    assert(head + Seq::<u8>::empty() =~= head);
    law_feeds_may_be_cut(SnifferState::Normal, head, bytes);
    lemma_unescaped_payload(bytes);
    law_feeds_may_be_cut(SnifferState::Normal, head + bytes, end);
    reveal_with_fuel(fed, 2);
    assert(end.drop_last() =~= Seq::<u8>::empty());
    assert(osc_title(title) =~= head + bytes + end);
}

/// For as long as the quiet period after a program has set a title, no title is
/// made up, whatever the foreground process is.
pub proof fn law_real_titles_are_left_alone(
    p: ProbeView,
    bytes: Seq<u8>,
    at: u128,
    now: u128,
    info: Option<ProcessInfoView>,
)
    requires
        fed(p.sniffer, bytes).1,
        at <= now < at + p.quiet_period,
    ensures
        p.observed(bytes, at).injected(now, info) == (p.observed(bytes, at), None::<Seq<u8>>),
{
}

/// Something that happens to a probe: it is shown output at a time, or asked at
/// a time while the foreground process is this.
pub enum ProbeStep {
    Observe(Seq<u8>, u128),
    Ask(u128, Option<ProcessInfoView>),
}

/// The time of a step.
pub open spec fn time_of(step: ProbeStep) -> u128 {
    match step {
        ProbeStep::Observe(_, now) => now,
        ProbeStep::Ask(now, _) => now,
    }
}

/// The probe after a step.
pub open spec fn stepped(p: ProbeView, step: ProbeStep) -> ProbeView {
    match step {
        ProbeStep::Observe(bytes, now) => p.observed(bytes, now),
        ProbeStep::Ask(now, info) => p.injected(now, info).0,
    }
}

/// When a probe looks at the foreground process in the course of several steps.
pub open spec fn looks(p: ProbeView, steps: Seq<ProbeStep>) -> Seq<u128>
    decreases steps.len(),
{
    if steps.len() == 0 {
        seq![]
    } else {
        let later = looks(stepped(p, steps[0]), steps.skip(1));
        match steps[0] {
            ProbeStep::Ask(now, _) => if p.due(now) {
                seq![now] + later
            } else {
                later
            },
            _ => later,
        }
    }
}

/// Whether the steps come in the order of their times, none of them before `at`.
pub open spec fn in_order(at: u128, steps: Seq<ProbeStep>) -> bool
    decreases steps.len(),
{
    steps.len() > 0 ==> at <= time_of(steps[0]) && in_order(time_of(steps[0]), steps.skip(1))
}

/// Two looks at the foreground process are never closer together than the
/// sample interval, whatever happens in between and whatever the looks find: a
/// look that finds no process, or a title that stands already, counts like any
/// other. This holds also where the clock goes back, unless the interval is zero.
pub proof fn law_looks_are_rate_limited(p: ProbeView, steps: Seq<ProbeStep>)
    requires
        p.sample_interval > 0 || in_order(0, steps),
    ensures
        forall|i: int, j: int|
            0 <= i < j < looks(p, steps).len() ==> (#[trigger] looks(p, steps)[i])
                + p.sample_interval <= #[trigger] looks(p, steps)[j],
{
    lemma_looks_are_spaced(p, 0, steps);
}

proof fn lemma_looks_are_spaced(p: ProbeView, at: u128, steps: Seq<ProbeStep>)
    requires
        p.sample_interval > 0 || in_order(at, steps),
    ensures
        forall|i: int, j: int|
            0 <= i < j < looks(p, steps).len() ==> (#[trigger] looks(p, steps)[i])
                + p.sample_interval <= #[trigger] looks(p, steps)[j],
        (p.last_sample matches Some(last) && (p.sample_interval > 0 || last <= at)) ==> forall|
            i: int,
        |
            0 <= i < looks(p, steps).len() ==> p.last_sample->0 + p.sample_interval <= (
            #[trigger] looks(p, steps)[i]),
    decreases steps.len(),
{
    if steps.len() > 0 {
        let now = time_of(steps[0]);
        let next = stepped(p, steps[0]);
        let later = looks(next, steps.skip(1));
        lemma_looks_are_spaced(next, now, steps.skip(1));
        let all = looks(p, steps);
        if steps[0] is Ask && p.due(now) {
            assert(next.last_sample == Some(now));
            assert forall|i: int, j: int| 0 <= i < j < all.len() implies (#[trigger] all[i])
                + p.sample_interval <= #[trigger] all[j] by {
                assert(all[j] == later[j - 1]);
                if i > 0 {
                    assert(all[i] == later[i - 1]);
                }
            }
            if p.last_sample is Some && (p.sample_interval > 0 || p.last_sample->0 <= at) {
                assert forall|i: int| 0 <= i < all.len() implies p.last_sample->0
                    + p.sample_interval <= (#[trigger] all[i]) by {
                    if i > 0 {
                        assert(all[i] == later[i - 1]);
                    }
                }
            }
        }
    }
}

/// After a program has set a title, the foreground process is not looked at for
/// as long as the quiet period, whatever happens in between.
pub proof fn law_no_looks_in_the_quiet_period(
    p: ProbeView,
    bytes: Seq<u8>,
    at: u128,
    steps: Seq<ProbeStep>,
)
    requires
        fed(p.sniffer, bytes).1,
        in_order(at, steps),
    ensures
        forall|i: int|
            0 <= i < looks(p.observed(bytes, at), steps).len() ==> at + p.quiet_period <= (
            #[trigger] looks(p.observed(bytes, at), steps)[i]),
{
    lemma_looks_wait(p.observed(bytes, at), at, steps);
}

proof fn lemma_looks_wait(p: ProbeView, at: u128, steps: Seq<ProbeStep>)
    requires
        p.last_real_title_at == Some(at),
        in_order(at, steps),
    ensures
        forall|i: int|
            0 <= i < looks(p, steps).len() ==> at + p.quiet_period <= (#[trigger] looks(
                p,
                steps,
            )[i]),
    decreases steps.len(),
{
    if steps.len() > 0 {
        let now = time_of(steps[0]);
        let next = stepped(p, steps[0]);
        let rest = steps.skip(1);
        let later = looks(next, rest);
        let all = looks(p, steps);
        if next.last_real_title_at == Some(now) {
            lemma_looks_wait(next, now, rest);
        } else {
            lemma_in_order_from(at, now, rest);
            lemma_looks_wait(next, at, rest);
        }
        assert forall|i: int| 0 <= i < all.len() implies at + p.quiet_period <= (
        #[trigger] all[i]) by {
            if steps[0] is Ask && p.due(now) {
                if i > 0 {
                    assert(all[i] == later[i - 1]);
                }
            } else {
                assert(all[i] == later[i]);
            }
        }
    }
}

proof fn lemma_in_order_from(at: u128, now: u128, steps: Seq<ProbeStep>)
    requires
        at <= now,
        in_order(now, steps),
    ensures
        in_order(at, steps),
{
}

/// A title is not made up twice in a row: while the foreground process stays
/// the same, nothing more is injected, however much time passes.
pub proof fn law_titles_are_not_repeated(
    p: ProbeView,
    first: u128,
    second: u128,
    info: Option<ProcessInfoView>,
)
    requires
        p.due(first),
    ensures
        p.injected(first, info).0.injected(second, info).1 is None,
{
}

} // verus!
