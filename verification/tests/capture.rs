use rigg_voice::capture::{stream_error, Action, Capture, Event, InputConfig, SampleFormat};

fn err(s: &str) -> Result<(), String> {
    Err(s.to_string())
}

fn step(c: &mut Capture, e: Event) -> Action {
    assert!(c.accepts(&e));
    c.step(e)
}

fn config(format: SampleFormat) -> InputConfig {
    InputConfig { sample_rate: 48000, channels: 2, format }
}

fn built(format: SampleFormat) -> Capture {
    let mut c = Capture::new();
    assert_eq!(step(&mut c, Event::Found(true)), Action::Configure);
    assert_eq!(step(&mut c, Event::Configured(Ok(config(format)))), Action::Build(config(format)));
    assert_eq!(c.rate, Some(48000));
    c
}

#[test]
fn a_capture_runs_as_long_as_the_recording() {
    for format in [SampleFormat::Single, SampleFormat::Int16] {
        let mut c = built(format);
        assert_eq!(step(&mut c, Event::Built(Ok(()))), Action::Play);
        assert_eq!(step(&mut c, Event::Played(Ok(()))), Action::Poll);
        assert_eq!(step(&mut c, Event::Polled { recording: true }), Action::Sleep(50));
        assert_eq!(step(&mut c, Event::Polled { recording: true }), Action::Sleep(50));
        assert_eq!(step(&mut c, Event::Polled { recording: false }), Action::Stop);
    }
}

#[test]
fn failures_are_logged() {
    let fail = |m: &str| Action::Fail(m.to_string());
    let mut c = Capture::new();
    assert_eq!(step(&mut c, Event::Found(false)), fail("no input device"));
    let mut c = Capture::new();
    step(&mut c, Event::Found(true));
    assert_eq!(step(&mut c, Event::Configured(Err("x".to_string()))), fail("input config error: x"));
    let mut c = Capture::new();
    step(&mut c, Event::Found(true));
    assert_eq!(step(&mut c, Event::Configured(Ok(config(SampleFormat::Other)))), fail("unsupported sample format"));
    assert_eq!(c.rate, Some(48000));
    let mut c = built(SampleFormat::Single);
    assert_eq!(step(&mut c, Event::Built(err("y"))), fail("build stream error: y"));
    let mut c = built(SampleFormat::Single);
    step(&mut c, Event::Built(Ok(())));
    assert_eq!(step(&mut c, Event::Played(err("z"))), fail("stream play error: z"));
    assert_eq!(stream_error("w"), "audio stream error: w");
}
