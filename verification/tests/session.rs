use rigg_voice::session::{Action, Event, FinalPass, Session, Source};

fn err(s: &str) -> Result<(), String> {
    Err(s.to_string())
}

fn step(p: &mut FinalPass, e: Event) -> Action {
    assert!(p.accepts(&e));
    p.step(e)
}

const MIC: Source = Source::Microphone { len: 48000, rate: 48000 };
const FILE: Source = Source::File { len: 700 };

fn pass(source: Source) -> FinalPass {
    FinalPass::new(source).0
}

#[test]
fn one_recording_at_a_time() {
    let mut s = Session::new();
    assert_eq!(s.may_start(), Ok(()));
    assert_eq!(s.start_recording(Ok(())), Ok(()));
    assert_eq!(s.may_start(), err("already recording"));
    assert_eq!(s.start_recording(Ok(())), err("already recording"));
    assert_eq!(s.stop_recording(), Ok(()));
    assert_eq!(s.stop_recording(), err("not recording"));
    assert_eq!(s.start_recording(Ok(())), Ok(()));
}

#[test]
fn a_missing_recogniser_prevents_the_start() {
    let mut s = Session::new();
    assert_eq!(s.start_recording(err("no model")), err("no model"));
    assert!(!s.recording);
}

#[test]
fn cancelling_allows_a_restart() {
    let mut s = Session::new();
    assert!(!s.cancel_recording());
    s.start_recording(Ok(())).unwrap();
    assert!(s.cancel_recording());
    assert_eq!(s.stop_recording(), err("not recording"));
    assert_eq!(s.start_recording(Ok(())), Ok(()));
}

#[test]
fn the_final_text_lands_on_the_clipboard() {
    let mut p = pass(MIC);
    assert_eq!(step(&mut p, Event::FinalLoaded(Ok(()))), Action::Transcribe { quality: true, start: 0, end: 48000 });
    assert_eq!(step(&mut p, Event::Transcribed(Ok("words".to_string()))), Action::Copy("words".to_string()));
    assert_eq!(step(&mut p, Event::Copied(Ok(()))), Action::Finish(Ok("words".to_string())));
}

#[test]
fn a_recording_falls_back_to_the_preview_model() {
    let mut p = pass(MIC);
    assert_eq!(step(&mut p, Event::FinalLoaded(err("still downloading"))), Action::LoadStreaming);
    assert_eq!(step(&mut p, Event::StreamingLoaded(Ok(()))), Action::Transcribe { quality: false, start: 0, end: 48000 });
    let mut p = pass(MIC);
    step(&mut p, Event::FinalLoaded(err("a")));
    assert_eq!(step(&mut p, Event::StreamingLoaded(err("b"))), Action::Finish(Err("b".to_string())));
}

#[test]
fn a_file_does_not_fall_back() {
    let mut p = pass(FILE);
    assert_eq!(step(&mut p, Event::FinalLoaded(err("a"))), Action::Finish(Err("a".to_string())));
    let mut p = pass(FILE);
    assert_eq!(step(&mut p, Event::FinalLoaded(Ok(()))), Action::Transcribe { quality: true, start: 0, end: 700 });
}

#[test]
fn silence_is_an_error() {
    for source in [Source::Microphone { len: 0, rate: 16000 }, Source::Microphone { len: 2, rate: 48000 }] {
        let mut p = pass(source);
        assert_eq!(step(&mut p, Event::FinalLoaded(Ok(()))), Action::Finish(Err("no audio captured".to_string())));
        let mut p = pass(source);
        step(&mut p, Event::FinalLoaded(err("a")));
        assert_eq!(step(&mut p, Event::StreamingLoaded(Ok(()))), Action::Finish(Err("no audio captured".to_string())));
    }
}

#[test]
fn failures_end_the_transcription() {
    let mut p = pass(MIC);
    step(&mut p, Event::FinalLoaded(Ok(())));
    assert_eq!(step(&mut p, Event::TaskFailed), Action::Finish(Err("transcription task failed".to_string())));
    let mut p = pass(MIC);
    step(&mut p, Event::FinalLoaded(Ok(())));
    assert_eq!(step(&mut p, Event::Transcribed(Err("bad".to_string()))), Action::Finish(Err("bad".to_string())));
    let mut p = pass(MIC);
    step(&mut p, Event::FinalLoaded(Ok(())));
    step(&mut p, Event::Transcribed(Ok("t".to_string())));
    assert_eq!(step(&mut p, Event::Copied(err("no clipboard"))), Action::Finish(Err("no clipboard".to_string())));
    assert!(!p.accepts(&Event::Copied(Ok(()))));
}

#[test]
fn audio_without_a_rate_fails_as_a_task() {
    let mut p = pass(Source::Microphone { len: 1, rate: 0 });
    assert_eq!(step(&mut p, Event::FinalLoaded(Ok(()))), Action::Finish(Err("transcription task failed".to_string())));
    let mut p = pass(Source::Microphone { len: 0, rate: 0 });
    assert_eq!(step(&mut p, Event::FinalLoaded(Ok(()))), Action::Finish(Err("no audio captured".to_string())));
}

#[test]
fn only_a_file_waits_for_the_quality_model() {
    assert_eq!(FinalPass::new(MIC).1, Action::LoadFinal { wait: false });
    assert_eq!(FinalPass::new(FILE).1, Action::LoadFinal { wait: true });
}
