use rigg_voice::preview::{combine, extend, Action, Event, Phase, Preview};

fn step(p: &mut Preview, e: Event) -> Action {
    assert!(p.accepts(&e));
    p.step(e)
}

fn capture(p: &mut Preview, len: usize, rate: u32) -> Action {
    assert_eq!(step(p, Event::Polled { recording: true }), Action::Sleep(450));
    assert_eq!(step(p, Event::Woke { recording: true }), Action::Capture);
    step(p, Event::Captured { len, rate })
}

fn text(s: &str) -> Event {
    Event::Transcribed(Some(s.to_string()))
}

#[test]
fn short_audio_is_not_transcribed() {
    let mut p = Preview::new();
    assert_eq!(capture(&mut p, 7999, 16000), Action::Poll);
    assert_eq!(p.last_len, 7999);
    assert_eq!(capture(&mut p, 8000, 16000), Action::Transcribe { start: 0, end: 8000 });
    assert_eq!(step(&mut p, text("hi")), Action::Show("hi".to_string()));
    assert_eq!(step(&mut p, Event::Shown), Action::Poll);
}

#[test]
fn nothing_new_is_not_transcribed() {
    let mut p = Preview::new();
    assert_eq!(capture(&mut p, 0, 0), Action::Poll);
    capture(&mut p, 20000, 16000);
    step(&mut p, text("hi"));
    step(&mut p, Event::Shown);
    assert_eq!(capture(&mut p, 20000, 16000), Action::Poll);
}

#[test]
fn audio_out_of_the_window_is_kept() {
    let rate = 48000;
    let second = 48000;
    let window = 8 * second;
    let overlap = 72000;
    let mut p = Preview::new();
    let len = 10 * second;
    assert_eq!(capture(&mut p, len, rate), Action::Transcribe { start: 0, end: len - window + overlap });
    assert_eq!(step(&mut p, text("the start")), Action::Transcribe { start: len - window, end: len });
    assert_eq!(step(&mut p, text(" the rest ")), Action::Show("the start the rest".to_string()));
    step(&mut p, Event::Shown);
    let later = 20 * second;
    assert_eq!(
        capture(&mut p, later, rate),
        Action::Transcribe { start: len - window + overlap, end: later - window + overlap }
    );
    assert_eq!(step(&mut p, text("goes on")), Action::Transcribe { start: later - window, end: later });
    assert_eq!(step(&mut p, text("here")), Action::Show("the start goes on here".to_string()));
    assert_eq!(p.confirmed, "the start goes on");
    assert_eq!(p.confirmed_to, later - window + overlap);
}

#[test]
fn half_a_minute_has_no_gap() {
    let mut p = Preview::new();
    let mut covered = 0;
    let mut words = Vec::new();
    let mut len = 0;
    while len < 30 * 16000 {
        let before = len;
        len += 7200;
        let action = capture(&mut p, len, 16000);
        if action == Action::Poll {
            continue;
        }
        if p.phase != Phase::Hearing {
            match action {
                Action::Transcribe { start, end } => {
                    assert_eq!(start, covered);
                    assert!(end - start <= len - before + 24_000);
                    covered = end;
                }
                other => panic!("{:?}", other),
            }
            words.push(format!("w{}", words.len()));
            step(&mut p, text(words.last().unwrap()));
        }
        assert!(len <= 128_000 || len - 128_000 <= covered);
        let shown = if words.is_empty() { "tail".to_string() } else { words.join(" ") + " tail" };
        assert_eq!(step(&mut p, text("tail")), Action::Show(shown));
        step(&mut p, Event::Shown);
    }
    assert!(words.len() > 5);
}

#[test]
fn a_part_is_sent_once_whatever_comes_of_it() {
    for answer in [None, Some(String::new())] {
        let mut p = Preview::new();
        assert_eq!(capture(&mut p, 144_000, 16000), Action::Transcribe { start: 0, end: 40_000 });
        let heard = step(&mut p, Event::Transcribed(answer));
        assert_eq!(heard, Action::Transcribe { start: 16_000, end: 144_000 });
        assert_eq!(step(&mut p, text(" tail ")), Action::Show(" tail ".to_string()));
        step(&mut p, Event::Shown);
        assert_eq!(capture(&mut p, 480_000, 16000), Action::Transcribe { start: 40_000, end: 376_000 });
        step(&mut p, text("more"));
        assert_eq!(p.confirmed, "more");
    }
}

#[test]
fn prefixes_are_extended_with_one_space() {
    assert_eq!(extend("", Some("a".to_string())), "a");
    assert_eq!(extend("a b", Some("c".to_string())), "a b c");
    assert_eq!(extend("a", Some(String::new())), "a");
    assert_eq!(extend("a", None), "a");
}

#[test]
fn failed_window_shows_nothing() {
    let mut p = Preview::new();
    capture(&mut p, 16000, 16000);
    assert_eq!(step(&mut p, Event::Transcribed(None)), Action::Poll);
}

#[test]
fn exactly_a_window_is_not_confirmed() {
    let mut p = Preview::new();
    assert_eq!(capture(&mut p, 128_000, 16000), Action::Transcribe { start: 0, end: 128_000 });
    assert_eq!(p.phase, Phase::Hearing);
}

#[test]
fn the_preview_stops_with_the_recording() {
    let mut p = Preview::new();
    assert_eq!(step(&mut p, Event::Polled { recording: false }), Action::Stop);
    let mut p = Preview::new();
    step(&mut p, Event::Polled { recording: true });
    assert_eq!(step(&mut p, Event::Woke { recording: false }), Action::Stop);
    assert!(!p.accepts(&Event::Polled { recording: true }));
}

#[test]
fn audio_without_a_rate_is_refused() {
    let mut p = Preview::new();
    step(&mut p, Event::Polled { recording: true });
    step(&mut p, Event::Woke { recording: true });
    assert!(!p.accepts(&Event::Captured { len: 1, rate: 0 }));
    assert!(p.accepts(&Event::Captured { len: 0, rate: 0 }));
}

#[test]
fn texts_are_combined_with_one_space() {
    assert_eq!(combine("", " as it is ".to_string()), " as it is ");
    assert_eq!(combine(" a b ", " c ".to_string()), "a b c");
    assert_eq!(combine("a", "".to_string()), "a ");
}

#[test]
fn nothing_is_confirmed_within_the_overlap() {
    let mut p = Preview::new();
    assert_eq!(capture(&mut p, 130_000, 16000), Action::Transcribe { start: 0, end: 26_000 });
    step(&mut p, text("start"));
    step(&mut p, text("rest"));
    step(&mut p, Event::Shown);
    assert_eq!(capture(&mut p, 154_000, 16000), Action::Transcribe { start: 26_000, end: 154_000 });
    step(&mut p, Event::Transcribed(None));
    assert_eq!(capture(&mut p, 154_001, 16000), Action::Transcribe { start: 26_000, end: 50_001 });
}
