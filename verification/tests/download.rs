use rigg_voice::download::{
    content_length, part_name, percent, Action, Download, Event, Phase, Progress,
};
use rigg_voice::models::Model;

fn err(s: &str) -> Result<(), String> {
    Err(s.to_string())
}

fn step(d: &mut Download, e: Event) -> Action {
    assert!(d.accepts(&e));
    d.step(e)
}

#[test]
fn percent_agrees_with_double_precision() {
    let sizes = [0u64, 1, 2, 3, 7, 29, 57, 58, 99, 100, 101, 1000, 147_951_465, 1_533_763_059, (1 << 53) - 1, (1 << 53) + 1, u64::MAX - 1, u64::MAX];
    for t in sizes {
        for d in sizes {
            let expected = if t > 0 { (d as f64 / t as f64 * 100.0) as u32 } else { 0 };
            assert_eq!(percent(d, t), expected, "{} of {}", d, t);
            if d <= t {
                assert!(percent(d, t) <= 100);
            }
        }
        if t > 0 {
            assert_eq!(percent(t, t), 100);
        }
    }
    for d in 0..=1000u64 {
        assert_eq!(percent(d, 1000), (d as f64 / 1000.0 * 100.0) as u32);
    }
}

#[test]
fn percent_is_cut_not_rounded() {
    assert_eq!(percent(29, 100), 28);
    assert_eq!(percent(1, 3), 33);
    assert_eq!(percent(2, 3), 66);
    assert_eq!(percent(5, 0), 0);
}

#[test]
fn missing_or_odd_headers_mean_unknown() {
    assert_eq!(content_length(&None), 0);
    assert_eq!(content_length(&Some("147951465".to_string())), 147_951_465);
    assert_eq!(content_length(&Some("lots".to_string())), 0);
}

#[test]
fn partial_files_change_the_extension() {
    for name in ["ggml-base.bin", "ggml-medium.bin", "model", ".hidden", "a.b.c", "ends.", ".a.b", "x", "...", "...a", "..a.", "..ab.c", "a..b"] {
        let expected = std::path::Path::new(name).with_extension("part");
        assert_eq!(part_name(name), expected.to_str().unwrap(), "{}", name);
    }
    assert_eq!(part_name("ggml-base.bin"), "ggml-base.part");
    assert_ne!(part_name("ggml-medium.bin"), "ggml-medium.bin");
}

#[test]
fn a_download_runs_to_the_end() {
    let (mut d, first) = Download::new(Model::Streaming);
    assert_eq!(first, Action::Request("https://huggingface.co/ggerganov/whisper.cpp/resolve/main/ggml-base.bin".to_string()));
    assert_eq!(step(&mut d, Event::Responded(Ok(Some("100".to_string())))), Action::CreatePart("ggml-base.part".to_string()));
    assert_eq!(step(&mut d, Event::Created(Ok(()))), Action::Read);
    assert_eq!(step(&mut d, Event::Read(Ok(50))), Action::Write(50));
    assert_eq!(
        step(&mut d, Event::Written { outcome: Ok(()), since_report_ms: 200 }),
        Action::Report(Progress { model: "ggml-base.bin".to_string(), downloaded: 50, total: 100, percent: 50, done: false })
    );
    assert_eq!(step(&mut d, Event::Reported), Action::Read);
    assert_eq!(step(&mut d, Event::Read(Ok(50))), Action::Write(50));
    assert_eq!(step(&mut d, Event::Written { outcome: Ok(()), since_report_ms: 199 }), Action::Read);
    assert_eq!(step(&mut d, Event::Read(Ok(0))), Action::Flush);
    assert_eq!(step(&mut d, Event::Flushed(Ok(()))), Action::Rename);
    assert_eq!(
        step(&mut d, Event::Renamed(Ok(()))),
        Action::Announce(Progress { model: "ggml-base.bin".to_string(), downloaded: 100, total: 100, percent: 100, done: true })
    );
    assert_eq!(step(&mut d, Event::Announced), Action::Finish(Ok(())));
    assert_eq!(d.phase, Phase::Finished);
}

#[test]
fn a_short_download_is_not_renamed() {
    let (mut d, _) = Download::new(Model::Streaming);
    step(&mut d, Event::Responded(Ok(Some("10".to_string()))));
    step(&mut d, Event::Created(Ok(())));
    assert_eq!(step(&mut d, Event::Read(Ok(4))), Action::Write(4));
    step(&mut d, Event::Written { outcome: Ok(()), since_report_ms: 0 });
    assert_eq!(step(&mut d, Event::Read(Ok(0))), Action::Finish(err("download incomplete")));
    assert_eq!(d.phase, Phase::Finished);
}

#[test]
fn every_failure_ends_a_download() {
    let failed = |m: &str| Action::Finish(err(m));
    let (mut d, _) = Download::new(Model::Final);
    assert_eq!(step(&mut d, Event::Responded(Err("no route".to_string()))), failed("download failed: no route"));
    let (mut d, _) = Download::new(Model::Final);
    step(&mut d, Event::Responded(Ok(None)));
    assert_eq!(step(&mut d, Event::Created(err("read-only"))), failed("read-only"));
    let (mut d, _) = Download::new(Model::Final);
    step(&mut d, Event::Responded(Ok(None)));
    step(&mut d, Event::Created(Ok(())));
    assert_eq!(step(&mut d, Event::Read(Err("reset".to_string()))), failed("reset"));
    let (mut d, _) = Download::new(Model::Final);
    step(&mut d, Event::Responded(Ok(None)));
    step(&mut d, Event::Created(Ok(())));
    step(&mut d, Event::Read(Ok(9)));
    assert_eq!(step(&mut d, Event::Written { outcome: err("full"), since_report_ms: 0 }), failed("full"));
    let (mut d, _) = Download::new(Model::Final);
    step(&mut d, Event::Responded(Ok(None)));
    step(&mut d, Event::Created(Ok(())));
    step(&mut d, Event::Read(Ok(0)));
    assert_eq!(step(&mut d, Event::Flushed(err("flush"))), failed("flush"));
    let (mut d, _) = Download::new(Model::Final);
    step(&mut d, Event::Responded(Ok(None)));
    step(&mut d, Event::Created(Ok(())));
    step(&mut d, Event::Read(Ok(0)));
    step(&mut d, Event::Flushed(Ok(())));
    assert_eq!(step(&mut d, Event::Renamed(err("rename"))), failed("rename"));
    assert!(!d.accepts(&Event::Announced));
}
