use rigg_voice::models::{home_directory, recognition, run_whisper, Action, ContextSlot, Event, Home, Model};

fn err(s: &str) -> Result<(), String> {
    Err(s.to_string())
}

fn step(s: &mut ContextSlot, e: Event) -> Action {
    assert!(s.accepts(&e));
    s.step(e)
}

#[test]
fn models_have_their_files() {
    assert_eq!(Model::Streaming.filename(), "ggml-base.bin");
    assert_eq!(Model::Final.filename(), "ggml-medium.bin");
    assert_eq!(Model::Final.url(), "https://huggingface.co/ggerganov/whisper.cpp/resolve/main/ggml-medium.bin");
    assert_eq!(home_directory(Home::Checkout), "../models");
    assert_eq!(home_directory(Home::AppData), "models");
}

#[test]
fn recognition_is_greedy_and_quiet() {
    let r = recognition();
    assert_eq!((r.best_of, r.language.as_str(), r.translate), (1, "auto", false));
    assert!(!r.print_progress && !r.print_realtime && !r.print_timestamps);
}

#[test]
fn a_recognition_gives_all_its_text_or_an_error() {
    let bad = |s: &str| Err::<String, String>(s.to_string());
    assert_eq!(run_whisper(Err("no state".to_string())), bad("no state"));
    assert_eq!(run_whisper(Ok(vec![Ok(" one".to_string()), Ok(" two ".to_string())])), Ok("one two".to_string()));
    assert_eq!(run_whisper(Ok(vec![Ok(" one".to_string()), bad("not text")])), bad("not text"));
}

#[test]
fn a_development_build_prefers_the_checkout() {
    let mut s = ContextSlot::new();
    assert_eq!(step(&mut s, Event::Wanted { debug: true, wait: true }), Action::ProbeCheckout);
    assert_eq!(step(&mut s, Event::CheckoutProbed(true)), Action::Probe(Home::Checkout));
    assert_eq!(step(&mut s, Event::Probed(true)), Action::NamePath(Home::Checkout));
    assert_eq!(step(&mut s, Event::Named(true)), Action::Load(Home::Checkout));
    assert_eq!(step(&mut s, Event::Loaded(Ok(()))), Action::Finish(Ok(())));
    assert!(s.loaded);
    assert_eq!(step(&mut s, Event::Wanted { debug: true, wait: true }), Action::Finish(Ok(())));
}

#[test]
fn a_shipped_build_downloads_on_first_run() {
    let mut s = ContextSlot::new();
    assert_eq!(step(&mut s, Event::Wanted { debug: false, wait: true }), Action::Locate);
    assert_eq!(step(&mut s, Event::Located(Ok(()))), Action::CreateDir);
    assert_eq!(step(&mut s, Event::DirCreated(Ok(()))), Action::Probe(Home::AppData));
    assert_eq!(step(&mut s, Event::Probed(false)), Action::Fetch(Home::AppData));
    assert_eq!(step(&mut s, Event::Fetched(Ok(()))), Action::NamePath(Home::AppData));
    assert_eq!(step(&mut s, Event::Named(true)), Action::Load(Home::AppData));
    assert_eq!(step(&mut s, Event::Loaded(Ok(()))), Action::Finish(Ok(())));
}

#[test]
fn a_checkout_without_models_uses_the_app_data() {
    let mut s = ContextSlot::new();
    step(&mut s, Event::Wanted { debug: true, wait: true });
    assert_eq!(step(&mut s, Event::CheckoutProbed(false)), Action::Locate);
}

#[test]
fn failures_leave_the_slot_empty() {
    let start = |n: usize| {
        let mut s = ContextSlot::new();
        step(&mut s, Event::Wanted { debug: false, wait: true });
        if n > 0 {
            step(&mut s, Event::Located(Ok(())));
        }
        if n > 1 {
            step(&mut s, Event::DirCreated(Ok(())));
        }
        if n > 2 {
            step(&mut s, Event::Probed(false));
        }
        if n > 3 {
            step(&mut s, Event::Fetched(Ok(())));
        }
        if n > 4 {
            step(&mut s, Event::Named(true));
        }
        s
    };
    let cases = vec![
        (0, Event::Located(err("a")), "a"),
        (1, Event::DirCreated(err("b")), "b"),
        (3, Event::Fetched(err("c")), "c"),
        (4, Event::Named(false), "invalid model path"),
        (5, Event::Loaded(err("d")), "d"),
    ];
    for (n, event, message) in cases {
        let mut s = start(n);
        assert_eq!(step(&mut s, event), Action::Finish(err(message)));
        assert!(!s.loaded);
        assert_eq!(step(&mut s, Event::Wanted { debug: false, wait: true }), Action::Locate);
    }
}

#[test]
fn a_model_under_way_is_not_waited_for() {
    let mut s = ContextSlot::new();
    step(&mut s, Event::Wanted { debug: false, wait: true });
    step(&mut s, Event::Located(Ok(())));
    step(&mut s, Event::DirCreated(Ok(())));
    assert_eq!(step(&mut s, Event::Probed(false)), Action::Fetch(Home::AppData));
    assert_eq!(step(&mut s, Event::Wanted { debug: false, wait: false }), Action::Finish(err("model not ready")));
    assert_eq!(step(&mut s, Event::Wanted { debug: false, wait: true }), Action::Wait);
    assert_eq!(step(&mut s, Event::Fetched(Ok(()))), Action::NamePath(Home::AppData));
    step(&mut s, Event::Named(true));
    step(&mut s, Event::Loaded(Ok(())));
    assert_eq!(step(&mut s, Event::Wanted { debug: false, wait: false }), Action::Finish(Ok(())));
}
