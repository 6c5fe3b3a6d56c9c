use std::cell::Cell;
use std::rc::Rc;
use std::time::Duration;

use pty_host::foreground::{
    format_title, lookup_process_info, macos_proc_cwd, macos_proc_name, make_title,
    synthesise_osc_title, Clock, ForegroundInfoSource, ForegroundProbe, OscSniffer, ProcessInfo,
    SystemClock, REAL_TITLE_QUIET_PERIOD, SAMPLE_INTERVAL,
};
use pty_host::path::UnixPath;

// ----- OSC sniffer tests --------------------------------------------

#[test]
fn sniffer_recognises_bel_terminated() {
    let mut s = OscSniffer::default();
    assert!(s.feed(b"\x1b]0;hello\x07"));
}

#[test]
fn sniffer_recognises_st_terminated() {
    let mut s = OscSniffer::default();
    assert!(s.feed(b"\x1b]2;world\x1b\\"));
}

#[test]
fn sniffer_recognises_osc_1_icon_name() {
    // OSC 1 is icon name; some terminals treat it as title-equivalent.
    let mut s = OscSniffer::default();
    assert!(s.feed(b"\x1b]1;icon\x07"));
}

#[test]
fn sniffer_recognises_split_across_feeds() {
    let mut s = OscSniffer::default();
    assert!(!s.feed(b"\x1b]0;hel"));
    assert!(s.feed(b"lo\x07"));
}

#[test]
fn sniffer_ignores_osc_7_cwd() {
    // OSC 7 is cwd advertisement, not title.
    let mut s = OscSniffer::default();
    assert!(!s.feed(b"\x1b]7;file:///tmp\x07"));
}

#[test]
fn sniffer_ignores_osc_133_prompt() {
    // OSC 133 is shell-integration semantic prompt; not title.
    let mut s = OscSniffer::default();
    assert!(!s.feed(b"\x1b]133;A\x07"));
}

#[test]
fn sniffer_ignores_plain_text() {
    let mut s = OscSniffer::default();
    assert!(!s.feed(b"hello world\nrunning command\n"));
}

#[test]
fn sniffer_recovers_from_malformed_escape() {
    // ESC followed by something other than ] resets to Normal.
    let mut s = OscSniffer::default();
    assert!(!s.feed(b"\x1bA"));
    // Sniffer back to Normal; subsequent valid OSC should work.
    assert!(s.feed(b"\x1b]0;recovered\x07"));
}

// ----- format_title tests -------------------------------------------

#[test]
fn format_title_with_cwd_and_name() {
    let info = ProcessInfo {
        name: "vim".into(),
        cwd: Some(UnixPath::from_text("/Users/me/myproject")),
    };
    assert_eq!(format_title(&info), "myproject — vim");
}

#[test]
fn format_title_without_cwd_falls_back_to_name() {
    let info = ProcessInfo {
        name: "top".into(),
        cwd: None,
    };
    assert_eq!(format_title(&info), "top");
}

#[test]
fn format_title_with_root_cwd_falls_back_to_name() {
    // file_name() returns None for "/", so cwd_name is empty.
    let info = ProcessInfo {
        name: "htop".into(),
        cwd: Some(UnixPath::from_text("/")),
    };
    assert_eq!(format_title(&info), "htop");
}

// ----- synthesise_osc_title tests -----------------------------------

#[test]
fn synthesise_emits_well_formed_osc_0() {
    let bytes = synthesise_osc_title("hello");
    assert_eq!(bytes, b"\x1b]0;hello\x07");
}

// ----- ForegroundProbe tests ----------------------------------------

/// Test clock with a time of its own.
#[derive(Clone)]
struct FakeClock(Rc<Cell<u128>>);

impl FakeClock {
    fn new() -> Self {
        Self(Rc::new(Cell::new(1_000_000_000_000)))
    }

    fn advance(&self, by: Duration) {
        self.0.set(self.0.get() + by.as_nanos());
    }
}

impl Clock for FakeClock {
    fn now(&self) -> u128 {
        self.0.get()
    }
}

/// Test source that returns whatever info the test wants.
#[derive(Clone)]
struct FakeSource(Rc<Cell<Option<ProcessInfo>>>);

impl FakeSource {
    fn new(info: Option<ProcessInfo>) -> Self {
        Self(Rc::new(Cell::new(info)))
    }

    fn set(&self, info: Option<ProcessInfo>) {
        self.0.set(info);
    }
}

impl ForegroundInfoSource for FakeSource {
    fn lookup(&self) -> Option<ProcessInfo> {
        // Cell::take + put back: clone via Option's Clone.
        let value = self.0.replace(None);
        self.0.set(value.clone());
        value
    }
}

fn probe(clock: FakeClock) -> ForegroundProbe<FakeClock> {
    ForegroundProbe::with_clock(clock).with_timing(
        Duration::from_millis(500).as_nanos(),
        Duration::from_secs(3).as_nanos(),
    )
}

fn vim_in_myproject() -> ProcessInfo {
    ProcessInfo {
        name: "vim".into(),
        cwd: Some(UnixPath::from_text("/Users/me/myproject")),
    }
}

fn top_no_cwd() -> ProcessInfo {
    ProcessInfo {
        name: "top".into(),
        cwd: None,
    }
}

#[test]
fn injects_when_idle_and_source_has_info() {
    let clock = FakeClock::new();
    let source = FakeSource::new(Some(vim_in_myproject()));
    let mut p = probe(clock);

    let out = p.maybe_inject(&source).expect("should inject");
    assert_eq!(out, b"\x1b]0;myproject \xe2\x80\x94 vim\x07");
}

#[test]
fn does_not_inject_when_source_returns_none() {
    let clock = FakeClock::new();
    let source = FakeSource::new(None);
    let mut p = probe(clock);
    assert!(p.maybe_inject(&source).is_none());
}

#[test]
fn snoozes_after_real_osc_title_observed() {
    let clock = FakeClock::new();
    let source = FakeSource::new(Some(vim_in_myproject()));
    let mut p = probe(clock.clone());

    // Real program emits OSC 0.
    p.observe_outbound(b"\x1b]0;real-title\x07");

    // Within quiet period, no synthetic injection.
    assert!(p.maybe_inject(&source).is_none());

    // Even after rate-limit window passes, still in quiet period.
    clock.advance(Duration::from_millis(600));
    assert!(p.maybe_inject(&source).is_none());

    // After quiet period passes, injection resumes.
    clock.advance(Duration::from_secs(3));
    assert!(p.maybe_inject(&source).is_some());
}

#[test]
fn rate_limits_consecutive_injections() {
    let clock = FakeClock::new();
    let source = FakeSource::new(Some(vim_in_myproject()));
    let mut p = probe(clock.clone());

    // First injection succeeds.
    assert!(p.maybe_inject(&source).is_some());

    // Source updates immediately to a different process.
    source.set(Some(top_no_cwd()));

    // Within sample interval, no second injection (even though title
    // would change).
    clock.advance(Duration::from_millis(100));
    assert!(p.maybe_inject(&source).is_none());

    // After sample interval elapses, second injection succeeds.
    clock.advance(Duration::from_millis(500));
    let out = p.maybe_inject(&source).expect("should inject after rate limit");
    assert_eq!(out, b"\x1b]0;top\x07");
}

#[test]
fn dedups_when_title_unchanged() {
    let clock = FakeClock::new();
    let source = FakeSource::new(Some(vim_in_myproject()));
    let mut p = probe(clock.clone());

    // First injection.
    assert!(p.maybe_inject(&source).is_some());

    // Time passes, title hasn't changed.
    clock.advance(Duration::from_secs(1));
    assert!(p.maybe_inject(&source).is_none(), "no re-inject for same title");

    // Title actually changes.
    source.set(Some(top_no_cwd()));
    clock.advance(Duration::from_secs(1));
    assert!(p.maybe_inject(&source).is_some(), "inject on actual change");
}

#[test]
fn injection_resumes_immediately_when_no_real_title_yet() {
    // Scenario: terminal thread starts with a non-OSC program (e.g.
    // top) running. No real OSC was ever observed, so quiet period
    // never engaged; injection should fire on first probe.
    let clock = FakeClock::new();
    let source = FakeSource::new(Some(top_no_cwd()));
    let mut p = probe(clock);
    assert!(p.maybe_inject(&source).is_some());
}

#[test]
fn observe_outbound_with_partial_osc_does_not_arm_quiet() {
    // A truncated OSC (no terminator yet) should NOT arm the quiet
    // period — only completed sequences count.
    let clock = FakeClock::new();
    let source = FakeSource::new(Some(vim_in_myproject()));
    let mut p = probe(clock);
    p.observe_outbound(b"\x1b]0;not-finished-yet");
    // Synthetic injection still works.
    assert!(p.maybe_inject(&source).is_some());
}

#[test]
fn observe_outbound_completes_osc_split_across_feeds() {
    let clock = FakeClock::new();
    let source = FakeSource::new(Some(vim_in_myproject()));
    let mut p = probe(clock);
    p.observe_outbound(b"\x1b]0;split");
    p.observe_outbound(b"-title\x07");
    // OSC was completed across feeds → quiet period engaged.
    assert!(p.maybe_inject(&source).is_none());
}

#[test]
fn timing_constants_are_half_a_second_and_three_seconds() {
    assert_eq!(SAMPLE_INTERVAL, Duration::from_millis(500).as_nanos());
    assert_eq!(REAL_TITLE_QUIET_PERIOD, Duration::from_secs(3).as_nanos());
}

#[test]
fn quiet_period_ends_exactly_when_it_is_over() {
    let clock = FakeClock::new();
    let source = FakeSource::new(Some(top_no_cwd()));
    let mut p = probe(clock.clone());
    p.observe_outbound(b"\x1b]2;t\x1b\\");
    clock.advance(Duration::from_nanos(2_999_999_999));
    assert!(p.maybe_inject(&source).is_none());
    clock.advance(Duration::from_nanos(1));
    assert_eq!(p.maybe_inject(&source).unwrap(), b"\x1b]0;top\x07");
}

#[test]
fn steps_with_given_time_and_process() {
    let mut p = ForegroundProbe::with_clock(FakeClock::new());
    assert!(p.take_sample(10));
    assert!(!p.take_sample(10 + SAMPLE_INTERVAL - 1));
    assert!(p.take_sample(10 + SAMPLE_INTERVAL));
    // A clock that went back counts as standing.
    assert!(!p.take_sample(5));
    p.observe_at(b"\x1b]1;x\x07", 20 + SAMPLE_INTERVAL);
    assert!(!p.take_sample(20 + SAMPLE_INTERVAL + REAL_TITLE_QUIET_PERIOD - 1));
    assert_eq!(p.inject_for(None), None);
    assert_eq!(p.inject_for(Some(top_no_cwd())).unwrap(), b"\x1b]0;top\x07");
    assert_eq!(p.inject_for(Some(top_no_cwd())), None);
    let nameless = ProcessInfo { name: String::new(), cwd: None };
    assert_eq!(p.inject_for(Some(nameless)), None);
}

#[test]
fn looks_are_spaced_whatever_they_find() {
    let mut p = probe(FakeClock::new()).with_timing(10, 30);
    let looks = Cell::new(0);
    let mut ask = |now: u128, info: Option<ProcessInfo>| {
        p.inject_with(now, || {
            looks.set(looks.get() + 1);
            info
        })
    };
    assert!(ask(100, None).is_none());
    assert_eq!(looks.get(), 1);
    assert!(ask(109, Some(top_no_cwd())).is_none());
    assert_eq!(looks.get(), 1);
    assert!(ask(110, Some(top_no_cwd())).is_some());
    assert_eq!(looks.get(), 2);
    // A clock that goes back brings no look.
    assert!(ask(50, Some(vim_in_myproject())).is_none());
    assert_eq!(looks.get(), 2);
    assert!(ask(120, Some(top_no_cwd())).is_none());
    assert_eq!(looks.get(), 3);
    assert!(ask(129, Some(vim_in_myproject())).is_none());
    assert_eq!(looks.get(), 3);
    p.observe_at(b"\x1b]2;mine\x07", 131);
    let quiet = p.inject_with(160, || panic!("looked in the quiet period"));
    assert!(quiet.is_none());
    assert!(p.inject_with(161, || Some(vim_in_myproject())).is_some());
}

#[test]
fn system_clock_does_not_go_back() {
    let clock = SystemClock::new();
    let first = clock.now();
    std::hint::black_box((0..10_000).sum::<u64>());
    assert!(clock.now() >= first);
    let source = FakeSource::new(Some(vim_in_myproject()));
    let mut p = ForegroundProbe::default();
    assert_eq!(
        p.maybe_inject(&source).unwrap(),
        "\x1b]0;myproject — vim\x07".as_bytes()
    );
    assert!(ForegroundProbe::new().maybe_inject(&FakeSource::new(None)).is_none());
}

#[test]
fn sniffer_gives_up_on_escape_inside_title() {
    let mut s = OscSniffer::default();
    assert!(!s.feed(b"\x1b]0;abc\x1b[0m\x07"));
    assert!(s.feed(b"\x1b]0;\x07"));
}

#[test]
fn made_up_titles_are_recognised() {
    let mut s = OscSniffer::default();
    assert!(s.feed(&synthesise_osc_title("dir — prog")));
}

#[test]
fn a_bell_inside_a_made_up_title_is_recognised() {
    let mut s = OscSniffer::default();
    assert!(s.feed(&synthesise_osc_title("a\x07b")));
    assert!(s.feed(&synthesise_osc_title("c")));
}

#[test]
fn titles_name_odd_directories() {
    let title = |cwd: &[u8]| {
        format_title(&ProcessInfo {
            name: "p".into(),
            cwd: Some(UnixPath { bytes: cwd.to_vec() }),
        })
    };
    assert_eq!(title(b"/a/b/"), "b — p");
    assert_eq!(title(b"/a/b/."), "b — p");
    assert_eq!(title(b"/a/b/.."), "p");
    assert_eq!(title(b"."), "p");
    assert_eq!(title(b"/a/\xff"), "\u{fffd} — p");
    assert_eq!(make_title("", "p"), "p");
    assert_eq!(make_title("d", "p"), "d — p");
}

#[test]
fn process_lookups_are_read() {
    let cwd = UnixPath::from_text("/tmp");
    assert_eq!(
        lookup_process_info(Some("vim\n".to_string()), Some(cwd.clone())),
        Some(ProcessInfo { name: "vim".to_string(), cwd: Some(cwd) })
    );
    assert_eq!(lookup_process_info(None, None), None);
    assert_eq!(macos_proc_name(b"zsh\0\0", 3), Some("zsh".to_string()));
    assert_eq!(macos_proc_name("über\0".as_bytes(), 5), Some("über".to_string()));
    assert_eq!(macos_proc_name(b"zsh", 0), None);
    assert_eq!(macos_proc_name(b"zsh", -1), None);
    assert_eq!(macos_proc_cwd(b"/tmp\0rest\0"), Some(UnixPath::from_text("/tmp")));
    assert_eq!(macos_proc_cwd(b"\0/tmp"), None);
    assert_eq!(macos_proc_cwd(b"/tmp"), None);
}
