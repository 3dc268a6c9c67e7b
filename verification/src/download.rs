//! Fetching a model over the network.
//!
//! A model is written to a partial file first, which takes its final name only
//! when it is complete, so that an interrupted download never leaves a file that
//! looks complete. It is complete when the stream has ended and no fewer bytes
//! came than the response announced; where it announced none, the end of the
//! stream is all there is to go by. [`Download::step`] decides; its caller talks to the network
//! and the disk, and reports each outcome as an [`Event`].
use crate::float;
use crate::float::{Float, DOUBLE};
use crate::models;
use crate::models::Model;
use crate::session;
use crate::text;
use vstd::arithmetic::power2::*;
use vstd::prelude::*;
use vstd::string::*;

verus! {

/// Most bytes to read at a time.
pub const CHUNK: usize = 65536;

/// Least time between two reports, in milliseconds.
pub const REPORT_INTERVAL_MS: u128 = 200;

/// A report to the user interface.
#[derive(Debug, PartialEq, Eq)]
pub struct Progress {
    /// File name of the model.
    pub model: String,
    pub downloaded: u64,
    /// Bytes to expect, 0 if unknown.
    pub total: u64,
    pub percent: u32,
    pub done: bool,
}

/// [`Progress`] with its text as characters.
#[verifier::ext_equal]
pub struct ProgressView {
    pub model: Seq<char>,
    pub downloaded: u64,
    pub total: u64,
    pub percent: u32,
    pub done: bool,
}

impl View for Progress {
    type V = ProgressView;

    open spec fn view(&self) -> ProgressView {
        ProgressView {
            model: self.model@,
            downloaded: self.downloaded,
            total: self.total,
            percent: self.percent,
            done: self.done,
        }
    }
}

/// `downloaded / total * 100` in double precision, cut to an integer; 0 where
/// the total is unknown.
pub open spec fn percent_of(downloaded: nat, total: nat) -> nat {
    if total == 0 {
        0
    } else {
        let share = float::quotient(53, float::of_int(53, downloaded), float::of_int(53, total));
        float::capped(
            float::floor(float::product(53, share, float::Dyadic { mant: 100, exp: 0 })),
            u32::MAX as nat,
        )
    }
}

/// The share of a download that is there, in percent.
pub fn percent(downloaded: u64, total: u64) -> (r: u32)
    ensures
        r == percent_of(downloaded as nat, total as nat),
{
    if total == 0 {
        return 0;
    }
    let part: Float = float::from_int(DOUBLE, downloaded);
    let whole: Float = float::from_int(DOUBLE, total);
    proof {
        float::lemma_powers();
        float::lemma_nearest_mant(53, total as nat, 1);
    }
    let share: Float = float::divide(DOUBLE, part, whole);
    let hundred: Float = Float { mant: 100, exp: 0 };
    let n: u64 = float::truncate(float::multiply(DOUBLE, share, hundred));
    if n > u32::MAX as u64 {
        u32::MAX
    } else {
        n as u32
    }
}

/// The number of bytes that a response announces, 0 where its header is missing
/// or no number.
pub open spec fn announced(header: Option<Seq<char>>) -> u64 {
    match header {
        Some(h) => match text::number(h) {
            Some(n) => n,
            None => 0,
        },
        None => 0,
    }
}

/// Reads a `Content-Length` header.
pub fn content_length(header: &Option<String>) -> (r: u64)
    ensures
        r == announced(header_text(*header)),
{
    match header {
        Some(h) => match text::parse_number(h.as_str()) {
            Some(n) => n,
            None => 0,
        },
        None => 0,
    }
}

/// A header as characters.
pub open spec fn header_text(header: Option<String>) -> Option<Seq<char>> {
    match header {
        Some(h) => Some(h@),
        None => None,
    }
}

/// Characters of a file name before its extension: up to its last dot, or all
/// of it where there is none but at the front.
pub open spec fn stem_len(name: Seq<char>, upto: nat) -> nat
    decreases upto,
{
    if upto <= 1 {
        name.len()
    } else if name[upto - 1] == '.' {
        (upto - 1) as nat
    } else {
        stem_len(name, (upto - 1) as nat)
    }
}

/// The name of the partial file of `name`.
pub open spec fn part_of(name: Seq<char>) -> Seq<char> {
    name.take(stem_len(name, name.len()) as int) + ".part"@
}

/// The name of the partial file that stands for `name` while it is incomplete:
/// its extension becomes `part`. `name` is a file name of its own, not a path,
/// and more than a dot is left of it without its extension.
pub fn part_name(name: &str) -> (r: String)
    requires
        name@.len() > 0,
        !name@.contains('/'),
        name@.take(stem_len(name@, name@.len()) as int) != seq!['.'],
    ensures
        r@ == part_of(name@),
{
    let n: usize = name.unicode_len();
    let mut k: usize = n;
    while k > 1 && name.get_char(k - 1) != '.'
        invariant
            k <= n,
            n == name@.len(),
            stem_len(name@, n as nat) == stem_len(name@, k as nat),
        decreases k,
    {
        k = k - 1;
    }
    let stem: usize = if k > 1 {
        k - 1
    } else {
        n
    };
    assert(name@.take(stem as int) =~= name@.subrange(0, stem as int));
    text::join(name.substring_char(0, stem), ".part")
}

/// What a download waits for.
#[derive(Clone, Copy, Debug, PartialEq, Eq)]
pub enum Phase {
    /// For the response.
    Requesting,
    /// For the partial file.
    Creating,
    /// For bytes.
    Reading,
    /// For so many bytes to be written.
    Writing(usize),
    /// For a report to be sent.
    Reporting,
    /// For the partial file to be flushed.
    Flushing,
    /// For the partial file to get its final name.
    Renaming,
    /// For the last report to be sent.
    Announcing,
    /// For nothing more.
    Finished,
}

/// The download of a model.
#[derive(Clone, Copy, Debug, PartialEq, Eq)]
pub struct Download {
    pub model: Model,
    pub phase: Phase,
    /// Bytes to expect, 0 if unknown.
    pub total: u64,
    /// Bytes written so far.
    pub downloaded: u64,
}

/// An outcome that the caller reports.
pub enum Event {
    /// Answer to [`Action::Request`]: the response's `Content-Length`.
    Responded(Result<Option<String>, String>),
    /// Answer to [`Action::CreatePart`].
    Created(Result<(), String>),
    /// Answer to [`Action::Read`]: how many bytes came, 0 at the end.
    Read(Result<usize, String>),
    /// Answer to [`Action::Write`], with the milliseconds since the last report
    /// or, before the first, since the partial file was there.
    Written { outcome: Result<(), String>, since_report_ms: u128 },
    /// Answer to [`Action::Report`].
    Reported,
    /// Answer to [`Action::Flush`].
    Flushed(Result<(), String>),
    /// Answer to [`Action::Rename`].
    Renamed(Result<(), String>),
    /// Answer to [`Action::Announce`].
    Announced,
}

/// What the caller is to do next.
#[derive(Debug, PartialEq, Eq)]
pub enum Action {
    /// Ask for this address.
    Request(String),
    /// Create the partial file with this name.
    CreatePart(String),
    /// Read at most [`CHUNK`] bytes.
    Read,
    /// Write the bytes that came, all of them.
    Write(usize),
    /// Send a report and restart its clock.
    Report(Progress),
    /// Flush and close the partial file.
    Flush,
    /// Give the partial file the model's name.
    Rename,
    /// Send the last report.
    Announce(Progress),
    /// End with this result.
    Finish(Result<(), String>),
}

/// [`Event`] with its texts as characters.
pub enum EventView {
    Responded(Result<Option<Seq<char>>, Seq<char>>),
    Created(Result<(), Seq<char>>),
    Read(Result<usize, Seq<char>>),
    Written { outcome: Result<(), Seq<char>>, since_report_ms: u128 },
    Reported,
    Flushed(Result<(), Seq<char>>),
    Renamed(Result<(), Seq<char>>),
    Announced,
}

/// [`Action`] with its texts as characters.
pub enum ActionView {
    Request(Seq<char>),
    CreatePart(Seq<char>),
    Read,
    Write(usize),
    Report(ProgressView),
    Flush,
    Rename,
    Announce(ProgressView),
    Finish(Result<(), Seq<char>>),
}

impl View for Event {
    type V = EventView;

    open spec fn view(&self) -> EventView {
        match self {
            Event::Responded(Ok(h)) => EventView::Responded(Ok(header_text(*h))),
            Event::Responded(Err(m)) => EventView::Responded(Err(m@)),
            Event::Created(r) => EventView::Created(session::outcome(*r)),
            Event::Read(Ok(n)) => EventView::Read(Ok(*n)),
            Event::Read(Err(m)) => EventView::Read(Err(m@)),
            Event::Written { outcome, since_report_ms } => EventView::Written {
                outcome: session::outcome(*outcome),
                since_report_ms: *since_report_ms,
            },
            Event::Reported => EventView::Reported,
            Event::Flushed(r) => EventView::Flushed(session::outcome(*r)),
            Event::Renamed(r) => EventView::Renamed(session::outcome(*r)),
            Event::Announced => EventView::Announced,
        }
    }
}

impl View for Action {
    type V = ActionView;

    open spec fn view(&self) -> ActionView {
        match self {
            Action::Request(u) => ActionView::Request(u@),
            Action::CreatePart(n) => ActionView::CreatePart(n@),
            Action::Read => ActionView::Read,
            Action::Write(n) => ActionView::Write(*n),
            Action::Report(p) => ActionView::Report(p@),
            Action::Flush => ActionView::Flush,
            Action::Rename => ActionView::Rename,
            Action::Announce(p) => ActionView::Announce(p@),
            Action::Finish(r) => ActionView::Finish(session::outcome(*r)),
        }
    }
}

/// The event answers what the download waits for, and the bytes written can
/// still be counted.
pub open spec fn expects(d: Download, e: EventView) -> bool {
    match e {
        EventView::Responded(_) => d.phase is Requesting,
        EventView::Created(_) => d.phase is Creating,
        EventView::Read(_) => d.phase is Reading,
        EventView::Written { outcome, .. } => d.phase matches Phase::Writing(n) && (outcome is Ok
            ==> d.downloaded + n <= u64::MAX),
        EventView::Reported => d.phase is Reporting,
        EventView::Flushed(_) => d.phase is Flushing,
        EventView::Renamed(_) => d.phase is Renaming,
        EventView::Announced => d.phase is Announcing,
    }
}

/// A report on the download.
pub open spec fn report(d: Download, percent: nat, done: bool) -> ProgressView {
    ProgressView {
        model: models::filename_of(d.model),
        downloaded: d.downloaded,
        total: d.total,
        percent: percent as u32,
        done,
    }
}

/// The end of a download.
pub open spec fn finished(d: Download, r: Result<(), Seq<char>>) -> (Download, ActionView) {
    (Download { phase: Phase::Finished, ..d }, ActionView::Finish(r))
}

/// State and action that follow an expected event.
pub open spec fn next(d: Download, e: EventView) -> (Download, ActionView) {
    match e {
        EventView::Responded(Ok(header)) => (
            Download { phase: Phase::Creating, total: announced(header), ..d },
            ActionView::CreatePart(part_of(models::filename_of(d.model))),
        ),
        EventView::Responded(Err(m)) => finished(d, Err("download failed: "@ + m)),
        EventView::Created(Ok(())) => (
            Download { phase: Phase::Reading, ..d },
            ActionView::Read,
        ),
        EventView::Created(Err(m)) => finished(d, Err(m)),
        EventView::Read(Ok(n)) => if n == 0 {
            if d.downloaded < d.total {
                finished(d, Err("download incomplete"@))
            } else {
                (Download { phase: Phase::Flushing, ..d }, ActionView::Flush)
            }
        } else {
            (Download { phase: Phase::Writing(n), ..d }, ActionView::Write(n))
        },
        EventView::Read(Err(m)) => finished(d, Err(m)),
        EventView::Written { outcome: Ok(()), since_report_ms } => {
            let downloaded = (d.downloaded + d.phase->Writing_0) as u64;
            if since_report_ms >= REPORT_INTERVAL_MS {
                let after = Download { phase: Phase::Reporting, downloaded, ..d };
                (
                    after,
                    ActionView::Report(
                        report(after, percent_of(downloaded as nat, d.total as nat), false),
                    ),
                )
            } else {
                (Download { phase: Phase::Reading, downloaded, ..d }, ActionView::Read)
            }
        },
        EventView::Written { outcome: Err(m), .. } => finished(d, Err(m)),
        EventView::Reported => (Download { phase: Phase::Reading, ..d }, ActionView::Read),
        EventView::Flushed(Ok(())) => (
            Download { phase: Phase::Renaming, ..d },
            ActionView::Rename,
        ),
        EventView::Flushed(Err(m)) => finished(d, Err(m)),
        EventView::Renamed(Ok(())) => (
            Download { phase: Phase::Announcing, ..d },
            ActionView::Announce(report(d, 100, true)),
        ),
        EventView::Renamed(Err(m)) => finished(d, Err(m)),
        EventView::Announced => finished(d, Ok(())),
    }
}

/// A download that has just begun.
pub open spec fn fresh(model: Model) -> Download {
    Download { model, phase: Phase::Requesting, total: 0, downloaded: 0 }
}

impl Download {
    /// The download of a model, and its first action.
    pub fn new(model: Model) -> (r: (Download, Action))
        ensures
            r.0 == fresh(model),
            r.1@ == ActionView::Request(models::url_of(model)),
    {
        let d: Download = Download { model, phase: Phase::Requesting, total: 0, downloaded: 0 };
        (d, Action::Request(model.url()))
    }

    fn report(&self, percent: u32, done: bool) -> (r: Progress)
        ensures
            r@ == report(*self, percent as nat, done),
    {
        Progress {
            model: self.model.filename(),
            downloaded: self.downloaded,
            total: self.total,
            percent,
            done,
        }
    }

    fn finish(&mut self, r: Result<(), String>) -> (a: Action)
        ensures
            *final(self) == finished(*old(self), session::outcome(r)).0,
            a@ == finished(*old(self), session::outcome(r)).1,
    {
        self.phase = Phase::Finished;
        Action::Finish(r)
    }

    /// Says whether [`step`](Download::step) may take the event now.
    pub fn accepts(&self, event: &Event) -> (r: bool)
        ensures
            r == expects(*self, event@),
    {
        match event {
            Event::Responded(_) => matches!(self.phase, Phase::Requesting),
            Event::Created(_) => matches!(self.phase, Phase::Creating),
            Event::Read(_) => matches!(self.phase, Phase::Reading),
            Event::Written { outcome, .. } => match self.phase {
                Phase::Writing(n) => outcome.is_err() || n as u64 <= u64::MAX - self.downloaded,
                _ => false,
            },
            Event::Reported => matches!(self.phase, Phase::Reporting),
            Event::Flushed(_) => matches!(self.phase, Phase::Flushing),
            Event::Renamed(_) => matches!(self.phase, Phase::Renaming),
            Event::Announced => matches!(self.phase, Phase::Announcing),
        }
    }

    /// Takes the answer to the last action and gives the next.
    pub fn step(&mut self, event: Event) -> (a: Action)
        requires
            expects(*old(self), event@),
        ensures
            *final(self) == next(*old(self), event@).0,
            a@ == next(*old(self), event@).1,
    {
        match event {
            Event::Responded(Ok(header)) => {
                self.phase = Phase::Creating;
                self.total = content_length(&header);
                let name: String = self.model.filename();
                proof {
                    lemma_filenames(self.model);
                }
                Action::CreatePart(part_name(name.as_str()))
            },
            Event::Responded(Err(m)) => {
                let message: String = text::join("download failed: ", m.as_str());
                self.finish(Err(message))
            },
            Event::Created(Ok(())) => {
                self.phase = Phase::Reading;
                Action::Read
            },
            Event::Created(Err(m)) => self.finish(Err(m)),
            Event::Read(Ok(n)) => if n == 0 {
                if self.downloaded < self.total {
                    return self.finish(Err("download incomplete".to_owned()));
                }
                self.phase = Phase::Flushing;
                Action::Flush
            } else {
                self.phase = Phase::Writing(n);
                Action::Write(n)
            },
            Event::Read(Err(m)) => self.finish(Err(m)),
            Event::Written { outcome: Ok(()), since_report_ms } => {
                if let Phase::Writing(n) = self.phase {
                    self.downloaded = self.downloaded + n as u64;
                }
                if since_report_ms >= REPORT_INTERVAL_MS {
                    self.phase = Phase::Reporting;
                    let share: u32 = percent(self.downloaded, self.total);
                    Action::Report(self.report(share, false))
                } else {
                    self.phase = Phase::Reading;
                    Action::Read
                }
            },
            Event::Written { outcome: Err(m), .. } => self.finish(Err(m)),
            Event::Reported => {
                self.phase = Phase::Reading;
                Action::Read
            },
            Event::Flushed(Ok(())) => {
                self.phase = Phase::Renaming;
                Action::Rename
            },
            Event::Flushed(Err(m)) => self.finish(Err(m)),
            Event::Renamed(Ok(())) => {
                self.phase = Phase::Announcing;
                Action::Announce(self.report(100, true))
            },
            Event::Renamed(Err(m)) => self.finish(Err(m)),
            Event::Announced => self.finish(Ok(())),
        }
    }
}

proof fn lemma_filenames(m: Model)
    ensures
        models::filename_of(m).len() > 5,
        !models::filename_of(m).contains('/'),
        models::filename_of(m).take(
            stem_len(models::filename_of(m), models::filename_of(m).len()) as int,
        ) != seq!['.'],
{
    let name = models::filename_of(m);
    lemma_stem_len(name, name.len());
    reveal_strlit("ggml-base.bin");
    reveal_strlit("ggml-medium.bin");
    assert(name.take(stem_len(name, name.len()) as int)[0] == 'g');
}

/// State after a run of events.
pub open spec fn state_after(d: Download, events: Seq<EventView>) -> Download
    decreases events.len(),
{
    if events.len() == 0 {
        d
    } else {
        next(state_after(d, events.drop_last()), events.last()).0
    }
}

/// Every event of the run comes when it is expected.
pub open spec fn is_run(d: Download, events: Seq<EventView>) -> bool
    decreases events.len(),
{
    events.len() == 0 || (is_run(d, events.drop_last()) && expects(
        state_after(d, events.drop_last()),
        events.last(),
    ))
}

/// The action that the last event of a run leads to.
pub open spec fn last_action(d: Download, events: Seq<EventView>) -> ActionView
    recommends
        events.len() > 0,
{
    next(state_after(d, events.drop_last()), events.last()).1
}

/// Bytes that came in a run of events.
pub open spec fn bytes_read(events: Seq<EventView>) -> nat
    decreases events.len(),
{
    if events.len() == 0 {
        0
    } else {
        bytes_read(events.drop_last()) + match events.last() {
            EventView::Read(Ok(n)) => n as nat,
            _ => 0,
        }
    }
}

/// No event of the run led to the partial file's getting the final name.
pub open spec fn never_renamed(d: Download, events: Seq<EventView>) -> bool
    decreases events.len(),
{
    events.len() == 0 || (never_renamed(d, events.drop_last()) && !(last_action(
        d,
        events,
    ) is Rename))
}

/// The final name is not given, or asked for, yet.
pub open spec fn is_early(p: Phase) -> bool {
    !(p is Renaming) && !(p is Announcing) && !(p is Finished)
}

proof fn lemma_run(model: Model, events: Seq<EventView>)
    requires
        is_run(fresh(model), events),
    ensures
        state_after(fresh(model), events).model == model,
        is_early(state_after(fresh(model), events).phase) ==> never_renamed(
            fresh(model),
            events,
        ),
        state_after(fresh(model), events).phase is Flushing ==> events.len() > 0 && events.last()
            == EventView::Read(Ok::<usize, Seq<char>>(0)),
        state_after(fresh(model), events).phase is Announcing ==> events.len() > 0 && (
        events.last() matches EventView::Renamed(Ok(_))),
        state_after(fresh(model), events).phase is Flushing || state_after(
            fresh(model),
            events,
        ).phase is Renaming ==> state_after(fresh(model), events).downloaded >= state_after(
            fresh(model),
            events,
        ).total,
        !(state_after(fresh(model), events).phase is Finished) ==> bytes_read(events)
            == state_after(fresh(model), events).downloaded + match state_after(
            fresh(model),
            events,
        ).phase {
            Phase::Writing(n) => n as nat,
            _ => 0,
        },
    decreases events.len(),
{
    if events.len() > 0 {
        lemma_run(model, events.drop_last());
    }
}

/// The partial file gets the final name only when it is complete: the stream
/// has come to its end, no fewer bytes came than were announced, every byte that
/// came has been written, and the file has been flushed.
pub proof fn renames_only_when_complete(model: Model, events: Seq<EventView>)
    requires
        is_run(fresh(model), events),
        events.len() > 0,
        last_action(fresh(model), events) is Rename,
    ensures
        events.last() matches EventView::Flushed(Ok(_)),
        events.len() >= 2,
        events[events.len() - 2] == EventView::Read(Ok::<usize, Seq<char>>(0)),
        state_after(fresh(model), events).downloaded == bytes_read(events),
        state_after(fresh(model), events).total == 0 || state_after(
            fresh(model),
            events,
        ).downloaded >= state_after(fresh(model), events).total,
{
    lemma_run(model, events.drop_last());
    lemma_run(model, events);
    assert(events.drop_last().last() == events[events.len() - 2]);
}

/// A download that fails leaves nothing under the final name: unless it was the
/// renaming itself that failed, no renaming was ever asked for.
pub proof fn failure_leaves_no_complete_file(model: Model, events: Seq<EventView>)
    requires
        is_run(fresh(model), events),
        events.len() > 0,
        last_action(fresh(model), events) matches ActionView::Finish(Err(_)),
    ensures
        events.last() is Renamed || never_renamed(fresh(model), events),
        events.last() is Renamed ==> never_renamed(fresh(model), events.drop_last().drop_last()),
{
    lemma_run(model, events.drop_last());
    if events.last() is Renamed {
        let before = events.drop_last();
        reveal_with_fuel(is_run, 3);
        reveal_with_fuel(state_after, 3);
        assert(before.len() > 0);
        lemma_run(model, before.drop_last());
    }
}

/// A download succeeds only after the file has its final name and that has been
/// announced.
pub proof fn success_means_renamed(model: Model, events: Seq<EventView>)
    requires
        is_run(fresh(model), events),
        events.len() > 0,
        last_action(fresh(model), events) matches ActionView::Finish(Ok(_)),
    ensures
        events.last() is Announced,
        events.len() >= 2,
        events[events.len() - 2] matches EventView::Renamed(Ok(_)),
{
    lemma_run(model, events.drop_last());
    assert(events.drop_last().last() == events[events.len() - 2]);
}

/// A partial file never has the name of the file that it stands for, unless
/// that name already ends as partial files do.
pub proof fn part_has_another_name(name: Seq<char>)
    requires
        !".part"@.is_suffix_of(name),
    ensures
        part_of(name) != name,
{
    reveal_strlit(".part");
    let stem = name.take(stem_len(name, name.len()) as int);
    lemma_stem_len(name, name.len());
    let part = part_of(name);
    if part == name {
        assert(name.subrange(name.len() - 5, name.len() as int) =~= ".part"@) by {
            assert(stem.len() + 5 == name.len());
        }
        assert(false);
    }
}

proof fn lemma_stem_len(name: Seq<char>, upto: nat)
    requires
        upto <= name.len(),
    ensures
        stem_len(name, upto) <= name.len(),
        name.len() > 0 ==> stem_len(name, upto) > 0,
    decreases upto,
{
    if upto > 1 {
        lemma_stem_len(name, (upto - 1) as nat);
    }
}

/// Both models are written under another name first.
pub proof fn models_have_partial_files(m: Model)
    ensures
        part_of(models::filename_of(m)) != models::filename_of(m),
{
    reveal_strlit(".part");
    reveal_strlit("ggml-base.bin");
    reveal_strlit("ggml-medium.bin");
    let name = models::filename_of(m);
    if ".part"@.is_suffix_of(name) {
        assert(name[name.len() - 1] == ".part"@[4]);
        assert(false);
    }
    part_has_another_name(name);
}

/// The share of a download that is no longer than announced is at most 100.
pub proof fn percent_is_at_most_hundred(downloaded: nat, total: nat)
    requires
        downloaded <= total,
    ensures
        percent_of(downloaded, total) <= 100,
{
    if total > 0 && downloaded > 0 {
        let a = float::of_int(53, downloaded);
        let b = float::of_int(53, total);
        float::rounding_keeps_order(53, downloaded, total, 1);
        float::lemma_nearest_mant(53, downloaded, 1);
        float::lemma_nearest_mant(53, total, 1);
        float::lemma_powers();
        float::lemma_ratio_bound(53, a.mant, b.mant);
        float::lemma_nearest_mant(53, a.mant, b.mant);
        let r = float::nearest(53, a.mant, b.mant);
        let q = float::quotient(53, a, b);
        let k = a.exp - b.exp;
        if k > 0 {
            float::lemma_pow2_mono(1, k as nat);
            assert(a.mant * pow2(k as nat) >= 2 * a.mant) by (nonlinear_arith)
                requires
                    pow2(k as nat) >= 2,
            ;
            assert(b.mant * pow2(0) == b.mant) by (nonlinear_arith)
                requires
                    pow2(0) == 1,
            ;
            assert(false);
        }
        if k == 0 {
            assert(a.mant <= b.mant) by (nonlinear_arith)
                requires
                    a.mant * pow2(0) <= b.mant * pow2(0),
                    pow2(0) == 1,
            ;
        } else {
            lemma_pow2_unfold((1 - r.exp) as nat);
            float::lemma_pow2_mono((1 - r.exp) as nat, (-q.exp) as nat);
        }
        let j = (-q.exp) as nat;
        assert(q.mant <= pow2(j));
        let n = q.mant * 100;
        let x = float::nearest(53, n, 1);
        let y = float::nearest(53, 100 * pow2(j), 1);
        float::rounding_keeps_order(53, n, 100 * pow2(j), 1);
        float::lemma_nearest_shift(53, 100, 1, j);
        float::lemma_exact(53, 100);
        float::lemma_nearest_mant(53, 100, 1);
        float::lemma_nearest_mant(53, n, 1);
        let h = float::nearest(53, 100, 1);
        float::lemma_floor_shift(100, 0, (-h.exp) as nat);
        let p = float::scaled(x, q.exp);
        float::lemma_floor_at_most(p, h);
        assert(float::floor(float::Dyadic { mant: 100, exp: 0 }) == 100) by (nonlinear_arith)
            requires
                pow2(0) == 1,
        ;
    }
}

/// A download of exactly the announced size is reported as 100 percent.
pub proof fn whole_download_is_hundred_percent(total: nat)
    requires
        0 < total,
    ensures
        percent_of(total, total) == 100,
{
    let a = float::of_int(53, total);
    float::lemma_powers();
    float::lemma_nearest_mant(53, total, 1);
    float::lemma_ratio_of_equals(53, a.mant);
    let q = float::quotient(53, a, a);
    float::lemma_nearest_shift(53, 100, 1, 52);
    assert(q.mant * 100 == 100 * pow2(52));
    float::lemma_exact(53, 100);
    let h = float::nearest(53, 100, 1);
    float::lemma_nearest_mant(53, 100, 1);
    float::lemma_floor_shift(100, 0, (-h.exp) as nat);
    assert(float::floor(float::Dyadic { mant: 100, exp: 0 }) == 100) by (nonlinear_arith)
        requires
            pow2(0) == 1,
    ;
}

/// Whatever goes wrong, the download ends with the message of just that failure,
/// a failed request behind words that say so.
pub proof fn failures_are_passed_on(d: Download, m: Seq<char>, since_report_ms: u128)
    ensures
        next(d, EventView::Responded(Err(m))).1 == ActionView::Finish(
            Err::<(), Seq<char>>("download failed: "@ + m),
        ),
        next(d, EventView::Created(Err(m))).1 == ActionView::Finish(Err::<(), Seq<char>>(m)),
        next(d, EventView::Read(Err(m))).1 == ActionView::Finish(Err::<(), Seq<char>>(m)),
        next(d, (EventView::Written { outcome: Err(m), since_report_ms })).1 == ActionView::Finish(
            Err::<(), Seq<char>>(m),
        ),
        next(d, EventView::Flushed(Err(m))).1 == ActionView::Finish(Err::<(), Seq<char>>(m)),
        next(d, EventView::Renamed(Err(m))).1 == ActionView::Finish(Err::<(), Seq<char>>(m)),
        next(d, EventView::Responded(Err(m))).0.phase is Finished,
        next(d, EventView::Created(Err(m))).0.phase is Finished,
        next(d, EventView::Read(Err(m))).0.phase is Finished,
        next(d, (EventView::Written { outcome: Err(m), since_report_ms })).0.phase is Finished,
        next(d, EventView::Flushed(Err(m))).0.phase is Finished,
        next(d, EventView::Renamed(Err(m))).0.phase is Finished,
        next(d, EventView::Announced).0.phase is Finished,
{
}

/// All bytes that come are written, and counted once they are; then more are
/// read, after a report if the last is at least 200 ms ago. When the stream ends
/// with all that was announced, the file is flushed, renamed and announced; if
/// less came, the download fails.
pub proof fn bytes_are_written_and_counted(d: Download, n: usize, since_report_ms: u128)
    requires
        d.phase is Reading,
        d.downloaded + n <= u64::MAX,
    ensures
        n == 0 && d.downloaded >= d.total ==> next(d, EventView::Read(Ok(n))).1 is Flush,
        n == 0 && d.downloaded < d.total ==> next(d, EventView::Read(Ok(n))).1
            == ActionView::Finish(Err::<(), Seq<char>>("download incomplete"@)),
        n > 0 ==> ({
            let (w, a) = next(d, EventView::Read(Ok(n)));
            let written = EventView::Written { outcome: Ok(()), since_report_ms };
            let (r, b) = next(w, written);
            &&& a == ActionView::Write(n)
            &&& w.downloaded == d.downloaded
            &&& expects(w, written)
            &&& r.downloaded == d.downloaded + n
            &&& r.total == d.total
            &&& since_report_ms >= 200 ==> b is Report && r.phase is Reporting
            &&& since_report_ms < 200 ==> b is Read && r.phase is Reading
            &&& next(r, EventView::Reported).1 is Read
        }),
        next(d, EventView::Created(Ok(()))).1 is Read,
        next(d, EventView::Flushed(Ok(()))).1 is Rename,
        next(d, EventView::Renamed(Ok(()))).1 is Announce,
        next(d, EventView::Announced).1 matches ActionView::Finish(Ok(_)),
{
}

/// The size to expect is what the response's header says in digits; a response
/// without such a header leaves it unknown. The partial file is created next.
pub proof fn header_gives_the_size(d: Download, header: Option<Seq<char>>)
    ensures
        ({
            let (r, a) = next(d, EventView::Responded(Ok(header)));
            &&& header is None ==> r.total == 0
            &&& header matches Some(h) ==> (text::number(h) matches Some(n) ==> r.total == n)
            &&& header matches Some(h) ==> (text::number(h) is None ==> r.total == 0)
            &&& r.downloaded == d.downloaded
            &&& a == ActionView::CreatePart(part_of(models::filename_of(d.model)))
        }),
{
}

/// Every answer to an action is expected, whatever it says, as long as the
/// bytes can be counted.
pub proof fn answers_are_expected(model: Model, d: Download, e: EventView, answer: EventView)
    requires
        expects(d, e),
        e matches EventView::Read(Ok(n)) ==> d.downloaded + n <= u64::MAX,
    ensures
        answer is Responded ==> expects(fresh(model), answer),
        next(d, e).1 is CreatePart && answer is Created ==> expects(next(d, e).0, answer),
        next(d, e).1 is Read && answer is Read ==> expects(next(d, e).0, answer),
        next(d, e).1 is Write && answer is Written ==> expects(next(d, e).0, answer),
        next(d, e).1 is Report && answer is Reported ==> expects(next(d, e).0, answer),
        next(d, e).1 is Flush && answer is Flushed ==> expects(next(d, e).0, answer),
        next(d, e).1 is Rename && answer is Renamed ==> expects(next(d, e).0, answer),
        next(d, e).1 is Announce && answer is Announced ==> expects(next(d, e).0, answer),
{
}

/// Events, actions and reports are seen with all that they hold.
pub proof fn views_hold_everything(
    p: Progress,
    m: String,
    n: usize,
    since_report_ms: u128,
)
    ensures
        p@ == (ProgressView {
            model: p.model@,
            downloaded: p.downloaded,
            total: p.total,
            percent: p.percent,
            done: p.done,
        }),
        Event::Responded(Ok(Some(m)))@ == EventView::Responded(Ok(Some(m@))),
        Event::Responded(Ok(None))@ == EventView::Responded(Ok(None)),
        Event::Responded(Err(m))@ == EventView::Responded(Err(m@)),
        Event::Created(Err(m))@ == EventView::Created(Err(m@)),
        Event::Read(Ok(n))@ == EventView::Read(Ok(n)),
        Event::Read(Err(m))@ == EventView::Read(Err(m@)),
        (Event::Written { outcome: Ok(()), since_report_ms })@ == (EventView::Written {
            outcome: Ok(()),
            since_report_ms,
        }),
        (Event::Written { outcome: Err(m), since_report_ms })@ == (EventView::Written {
            outcome: Err(m@),
            since_report_ms,
        }),
        Event::Flushed(Err(m))@ == EventView::Flushed(Err(m@)),
        Event::Renamed(Err(m))@ == EventView::Renamed(Err(m@)),
        Action::Request(m)@ == ActionView::Request(m@),
        Action::CreatePart(m)@ == ActionView::CreatePart(m@),
        Action::Write(n)@ == ActionView::Write(n),
        Action::Report(p)@ == ActionView::Report(p@),
        Action::Announce(p)@ == ActionView::Announce(p@),
        Action::Finish(Err(m))@ == ActionView::Finish(Err(m@)),
{
}

/// A partial file's name is its model's name with the extension replaced: what
/// stands before the last dot stays and `.part` follows; a name with no dot, or
/// with one at the front alone, stays whole before it.
pub proof fn extension_becomes_part(name: Seq<char>, k: int)
    requires
        0 <= k < name.len(),
    ensures
        k > 0 && name[k] == '.' && (forall|j: int| k < j < name.len() ==> #[trigger] name[j] != '.')
            ==> part_of(name) == name.take(k) + seq!['.', 'p', 'a', 'r', 't'],
        (forall|j: int| 0 < j < name.len() ==> #[trigger] name[j] != '.') ==> part_of(name) == name
            + seq!['.', 'p', 'a', 'r', 't'],
{
    reveal_strlit(".part");
    assert(".part"@ =~= seq!['.', 'p', 'a', 'r', 't']);
    if k > 0 && name[k] == '.' && (forall|j: int| k < j < name.len() ==> #[trigger] name[j] != '.') {
        lemma_last_dot(name, k, name.len());
    }
    if forall|j: int| 0 < j < name.len() ==> #[trigger] name[j] != '.' {
        lemma_no_dot(name, name.len());
        assert(name.take(name.len() as int) =~= name);
    }
}

proof fn lemma_last_dot(name: Seq<char>, k: int, upto: nat)
    requires
        0 < k < upto <= name.len(),
        name[k] == '.',
        forall|j: int| k < j < name.len() ==> #[trigger] name[j] != '.',
    ensures
        stem_len(name, upto) == k,
    decreases upto,
{
    if upto - 1 > k {
        assert(name[upto - 1] != '.');
        lemma_last_dot(name, k, (upto - 1) as nat);
    }
}

proof fn lemma_no_dot(name: Seq<char>, upto: nat)
    requires
        upto <= name.len(),
        forall|j: int| 0 < j < name.len() ==> #[trigger] name[j] != '.',
    ensures
        stem_len(name, upto) == name.len(),
    decreases upto,
{
    if upto > 1 {
        assert(name[upto - 1] != '.');
        lemma_no_dot(name, (upto - 1) as nat);
    }
}

/// The percentage is the share of the total that is there: `100 * downloaded /
/// total`, cut to an integer and right to one part in `2^50`, unless a `u32`
/// cannot hold that. Of an unknown total it is 0.
pub proof fn percent_is_the_share(downloaded: nat, total: nat)
    ensures
        total == 0 ==> percent_of(downloaded, total) == 0,
        total > 0 ==> percent_of(downloaded, total) * total * 0x4_0000_0000_0000 <= 100 * downloaded
            * 0x4_0000_0000_0001,
        total > 0 ==> percent_of(downloaded, total) == u32::MAX || 100 * downloaded
            * 0x4_0000_0000_0000 < (percent_of(downloaded, total) + 1) * total * 0x4_0000_0000_0001,
{
    if total > 0 {
        float::lemma_powers();
        let x = float::of_int(53, downloaded);
        let y = float::of_int(53, total);
        let q = float::quotient(53, x, y);
        let hundred = float::Dyadic { mant: 100, exp: 0 };
        let d = float::product(53, q, hundred);
        let p = percent_of(downloaded, total);
        float::lemma_nearest_mant(53, total, 1);
        if downloaded == 0 {
            assert(q.mant == 0);
            assert(0 * 100 == 0);
            assert(d.mant == 0);
            float::integer_part_is_just_below(d);
            lemma_floor_of_nothing(d);
            assert(0 * total * 0x4_0000_0000_0000 == 0) by (nonlinear_arith);
            assert((0 + 1) * total * 0x4_0000_0000_0001 > 0) by (nonlinear_arith)
                requires
                    total > 0,
            ;
        } else {
            let a: nat = 0x20_0000_0000_0000;
            let b: nat = 0x1f_ffff_ffff_ffff;
            float::lemma_nearest_mant(53, downloaded, 1);
            float::lemma_nearest_within(53, downloaded, 1);
            float::lemma_nearest_within(53, total, 1);
            float::lemma_quotient_within(53, x, y, downloaded, 1, a, b, total, 1, a, b);
            float::lemma_nearest_mant(53, x.mant, y.mant);
            assert(float::top(hundred) == 100 && float::bottom(hundred) == 1);
            float::lemma_product_within(
                53,
                q,
                hundred,
                downloaded * 1,
                1 * total,
                a * (a * a),
                b * (b * b),
                100,
                1,
                1,
                1,
            );
            assert(downloaded * 1 * 100 == 100 * downloaded && 1 * total * 1 == total)
                by (nonlinear_arith);
            float::lemma_loosen(
                float::top(d),
                float::bottom(d),
                100 * downloaded,
                total,
                a * (a * (a * a) * 1),
                b * (b * (b * b) * 1),
                0x4_0000_0000_0001,
                0x4_0000_0000_0000,
            );
            float::lemma_floor_near(
                d,
                100 * downloaded,
                total,
                0x4_0000_0000_0001,
                0x4_0000_0000_0000,
            );
            let f = float::floor(d);
            assert(p * total * 0x4_0000_0000_0000 <= f * total * 0x4_0000_0000_0000)
                by (nonlinear_arith)
                requires
                    p <= f,
            ;
        }
    }
}

proof fn lemma_floor_of_nothing(d: float::Dyadic)
    requires
        d.mant == 0,
    ensures
        float::floor(d) == 0,
{
    if d.exp >= 0 {
        assert(0 * pow2(d.exp as nat) == 0) by (nonlinear_arith);
    } else {
        lemma_pow2_pos((-d.exp) as nat);
        vstd::arithmetic::div_mod::lemma_div_basics(pow2((-d.exp) as nat) as int);
    }
}

/// More bytes of the same total are never a smaller percentage.
pub proof fn percent_never_falls(downloaded: nat, later: nat, total: nat)
    requires
        downloaded <= later,
    ensures
        percent_of(downloaded, total) <= percent_of(later, total),
{
    if total > 0 {
        float::lemma_powers();
        let x = float::of_int(53, downloaded);
        let y = float::of_int(53, later);
        let z = float::of_int(53, total);
        let hundred = float::Dyadic { mant: 100, exp: 0 };
        float::lemma_nearest_mant(53, total, 1);
        if downloaded == 0 {
            let q = float::quotient(53, x, z);
            assert(q.mant == 0);
            assert(0 * 100 == 0);
            lemma_floor_of_nothing(float::product(53, q, hundred));
        } else {
            float::lemma_nearest_mant(53, downloaded, 1);
            float::lemma_nearest_mant(53, later, 1);
            float::rounding_keeps_order(53, downloaded, later, 1);
            float::lemma_quotient_order(53, x, y, z);
            let a = float::quotient(53, x, z);
            let b = float::quotient(53, y, z);
            float::lemma_product_order(53, a, b, hundred);
            float::lemma_floor_at_most(
                float::product(53, a, hundred),
                float::product(53, b, hundred),
            );
        }
    }
}

proof fn lemma_total(model: Model, events: Seq<EventView>)
    requires
        is_run(fresh(model), events),
        events.len() > 0,
    ensures
        !(state_after(fresh(model), events).phase is Requesting),
        events[0] matches EventView::Responded(Ok(header)) ==> state_after(
            fresh(model),
            events,
        ).total == announced(header),
        events[0] is Responded,
    decreases events.len(),
{
    if events.len() > 1 {
        lemma_total(model, events.drop_last());
        assert(events.drop_last()[0] == events[0]);
    } else {
        assert(events.drop_last().len() == 0);
        assert(events.last() == events[0]);
    }
}

/// Every report on the way carries the share that is there: the bytes that came
/// so far, the size that the response announced, and 100 times the one divided
/// by the other, cut to an integer and right to one part in `2^50`.
pub proof fn reports_carry_the_share(model: Model, events: Seq<EventView>, p: ProgressView)
    requires
        is_run(fresh(model), events),
        events.len() > 0,
        last_action(fresh(model), events) == ActionView::Report(p),
    ensures
        p.model == models::filename_of(model),
        !p.done,
        p.downloaded == bytes_read(events),
        events[0] matches EventView::Responded(Ok(None)) ==> p.total == 0,
        events[0] matches EventView::Responded(Ok(Some(h))) ==> (text::number(h) matches Some(n)
            ==> p.total == n),
        p.total == 0 ==> p.percent == 0,
        p.total > 0 ==> p.percent * p.total * 0x4_0000_0000_0000 <= 100 * bytes_read(events)
            * 0x4_0000_0000_0001,
        p.total > 0 ==> p.percent == u32::MAX || 100 * bytes_read(events) * 0x4_0000_0000_0000 < (
        p.percent + 1) * p.total * 0x4_0000_0000_0001,
{
    lemma_run(model, events.drop_last());
    lemma_run(model, events);
    lemma_total(model, events);
    percent_is_the_share(p.downloaded as nat, p.total as nat);
}

/// The last report says that all that came is there and that the download is
/// done.
pub proof fn last_report_says_done(model: Model, events: Seq<EventView>, p: ProgressView)
    requires
        is_run(fresh(model), events),
        events.len() > 0,
        last_action(fresh(model), events) == ActionView::Announce(p),
    ensures
        p.model == models::filename_of(model),
        p.done,
        p.percent == 100,
        p.downloaded == bytes_read(events),
        p.downloaded >= p.total,
        events[0] matches EventView::Responded(Ok(Some(h))) ==> (text::number(h) matches Some(n)
            ==> p.total == n),
{
    lemma_run(model, events.drop_last());
    lemma_run(model, events);
    lemma_total(model, events);
}

proof fn lemma_forward(d: Download, events: Seq<EventView>)
    requires
        is_run(d, events),
        !(d.phase is Requesting),
    ensures
        state_after(d, events).downloaded >= d.downloaded,
        state_after(d, events).total == d.total,
        !(state_after(d, events).phase is Requesting),
    decreases events.len(),
{
    if events.len() > 0 {
        lemma_forward(d, events.drop_last());
    }
}

/// Progress only goes up: from one report of a download to any later one neither
/// the bytes nor the percentage fall, and the total stays.
pub proof fn progress_only_goes_up(
    model: Model,
    events: Seq<EventView>,
    more: Seq<EventView>,
    p: ProgressView,
    q: ProgressView,
)
    requires
        is_run(fresh(model), events),
        events.len() > 0,
        last_action(fresh(model), events) == ActionView::Report(p),
        is_run(state_after(fresh(model), events), more),
        more.len() > 0,
        last_action(state_after(fresh(model), events), more) == ActionView::Report(q),
    ensures
        p.downloaded <= q.downloaded,
        p.total == q.total,
        p.percent <= q.percent,
{
    let s = state_after(fresh(model), events);
    lemma_total(model, events);
    lemma_forward(s, more);
    percent_never_falls(p.downloaded as nat, q.downloaded as nat, p.total as nat);
}

} // verus!
