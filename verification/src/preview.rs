//! The live preview: transcribing a recording while it grows.
//!
//! Only the last window of audio is heard on each pass, so a pass costs the same
//! however long the recording runs. Audio that scrolls out of the window is sent
//! to the recogniser once more, reaching a little into the window, and its text
//! is added to a confirmed prefix. Such a part is sent once, whatever comes of
//! it: a part for which the recogniser fails adds nothing to the prefix.
//!
//! [`Preview::step`] decides; its caller sleeps, copies the captured audio, runs
//! the recogniser and shows text, and reports each outcome as an [`Event`].
use crate::audio;
use crate::text;
use vstd::prelude::*;

verus! {

/// Pause between passes, in milliseconds.
pub const PASS_INTERVAL_MS: u64 = 450;

/// Fewer resampled samples than this (half a second) are not transcribed.
pub const MIN_SAMPLES: usize = 8000;

/// What the preview waits for.
#[derive(Clone, Copy, Debug, PartialEq, Eq)]
pub enum Phase {
    /// To hear whether the recording goes on.
    Polling,
    /// For the pause to end.
    Sleeping,
    /// For a copy of the captured audio.
    Capturing,
    /// For the text of the part to confirm, which ends at `end`. The window
    /// then starts at `start` of `len` samples, and is transcribed if it is long
    /// enough.
    Confirming { start: usize, end: usize, len: usize, audible: bool },
    /// For the text of the window.
    Hearing,
    /// For the text to be shown.
    Showing,
    /// For nothing more.
    Stopped,
}

/// The preview of one recording.
pub struct Preview {
    pub phase: Phase,
    /// Samples captured at the last pass.
    pub last_len: usize,
    /// Text of the audio up to `confirmed_to`.
    pub confirmed: String,
    /// Samples that have been sent to the recogniser for the last time.
    pub confirmed_to: usize,
}

/// An outcome that the caller reports.
pub enum Event {
    /// Answer to [`Action::Poll`].
    Polled { recording: bool },
    /// Answer to [`Action::Sleep`].
    Woke { recording: bool },
    /// Answer to [`Action::Capture`]: samples captured so far, and their rate.
    Captured { len: usize, rate: u32 },
    /// Answer to [`Action::Transcribe`]: the text, if the recogniser gave one.
    Transcribed(Option<String>),
    /// Answer to [`Action::Show`].
    Shown,
}

/// What the caller is to do next.
#[derive(Debug, PartialEq, Eq)]
pub enum Action {
    /// Look whether the recording goes on.
    Poll,
    /// Sleep for so many milliseconds, then look whether the recording goes on.
    Sleep(u64),
    /// Copy the captured audio.
    Capture,
    /// Transcribe the samples from `start` up to `end` of the copy.
    Transcribe { start: usize, end: usize },
    /// Show the text as the preview.
    Show(String),
    /// End.
    Stop,
}

/// [`Preview`] with its text as characters.
#[verifier::ext_equal]
pub struct PreviewView {
    pub phase: Phase,
    pub last_len: nat,
    pub confirmed: Seq<char>,
    pub confirmed_to: nat,
}

/// [`Event`] with its text as characters.
pub enum EventView {
    Polled { recording: bool },
    Woke { recording: bool },
    Captured { len: nat, rate: nat },
    Transcribed(Option<Seq<char>>),
    Shown,
}

/// [`Action`] with its text as characters.
pub enum ActionView {
    Poll,
    Sleep(u64),
    Capture,
    Transcribe { start: nat, end: nat },
    Show(Seq<char>),
    Stop,
}

impl View for Preview {
    type V = PreviewView;

    open spec fn view(&self) -> PreviewView {
        PreviewView {
            phase: self.phase,
            last_len: self.last_len as nat,
            confirmed: self.confirmed@,
            confirmed_to: self.confirmed_to as nat,
        }
    }
}

impl View for Event {
    type V = EventView;

    open spec fn view(&self) -> EventView {
        match self {
            Event::Polled { recording } => EventView::Polled { recording: *recording },
            Event::Woke { recording } => EventView::Woke { recording: *recording },
            Event::Captured { len, rate } => EventView::Captured {
                len: *len as nat,
                rate: *rate as nat,
            },
            Event::Transcribed(Some(t)) => EventView::Transcribed(Some(t@)),
            Event::Transcribed(None) => EventView::Transcribed(None),
            Event::Shown => EventView::Shown,
        }
    }
}

impl View for Action {
    type V = ActionView;

    open spec fn view(&self) -> ActionView {
        match self {
            Action::Poll => ActionView::Poll,
            Action::Sleep(ms) => ActionView::Sleep(*ms),
            Action::Capture => ActionView::Capture,
            Action::Transcribe { start, end } => ActionView::Transcribe {
                start: *start as nat,
                end: *end as nat,
            },
            Action::Show(t) => ActionView::Show(t@),
            Action::Stop => ActionView::Stop,
        }
    }
}

/// The event answers what the preview waits for, and new audio has a rate.
pub open spec fn expects(p: PreviewView, e: EventView) -> bool {
    match e {
        EventView::Polled { .. } => p.phase is Polling,
        EventView::Woke { .. } => p.phase is Sleeping,
        EventView::Captured { len, rate } => p.phase is Capturing && (len > p.last_len ==> rate
            > 0),
        EventView::Transcribed(_) => p.phase is Confirming || p.phase is Hearing,
        EventView::Shown => p.phase is Showing,
    }
}

/// Where the window starts in `len` samples taken at `rate`.
pub open spec fn window_start(len: nat, rate: nat) -> nat {
    if len > audio::window_len(rate) {
        (len - audio::window_len(rate)) as nat
    } else {
        0
    }
}

/// Where the part to confirm ends: an overlap into the window.
pub open spec fn confirm_end(len: nat, rate: nat) -> nat {
    (window_start(len, rate) + audio::overlap_len(rate)) as nat
}

/// The window is long enough to transcribe.
pub open spec fn is_audible(len: nat, rate: nat) -> bool {
    audio::output_len((len - window_start(len, rate)) as nat, rate) >= MIN_SAMPLES
}

/// The preview's text: the window's text behind the confirmed prefix.
pub open spec fn full_text(confirmed: Seq<char>, tail: Seq<char>) -> Seq<char> {
    if confirmed.len() == 0 {
        tail
    } else {
        text::trimmed(confirmed) + " "@ + text::trimmed(tail)
    }
}

/// The prefix after the recogniser was asked for the text of another part.
pub open spec fn extended(confirmed: Seq<char>, answer: Option<Seq<char>>) -> Seq<char> {
    match answer {
        None => confirmed,
        Some(t) => if t.len() == 0 {
            confirmed
        } else if confirmed.len() == 0 {
            t
        } else {
            confirmed + " "@ + t
        },
    }
}

/// Transcribes the window, if it is long enough.
pub open spec fn hear(p: PreviewView, start: nat, end: nat, audible: bool) -> (
    PreviewView,
    ActionView,
) {
    if audible {
        (PreviewView { phase: Phase::Hearing, ..p }, ActionView::Transcribe { start, end })
    } else {
        (PreviewView { phase: Phase::Polling, ..p }, ActionView::Poll)
    }
}

/// State and action that follow an expected event.
pub open spec fn next(p: PreviewView, e: EventView) -> (PreviewView, ActionView) {
    match e {
        EventView::Polled { recording } => if recording {
            (PreviewView { phase: Phase::Sleeping, ..p }, ActionView::Sleep(PASS_INTERVAL_MS))
        } else {
            (PreviewView { phase: Phase::Stopped, ..p }, ActionView::Stop)
        },
        EventView::Woke { recording } => if recording {
            (PreviewView { phase: Phase::Capturing, ..p }, ActionView::Capture)
        } else {
            (PreviewView { phase: Phase::Stopped, ..p }, ActionView::Stop)
        },
        EventView::Captured { len, rate } => {
            let start = window_start(len, rate);
            let audible = is_audible(len, rate);
            if len <= p.last_len {
                (PreviewView { phase: Phase::Polling, ..p }, ActionView::Poll)
            } else if start > p.confirmed_to {
                (
                    PreviewView {
                        phase: Phase::Confirming {
                            start: start as usize,
                            end: confirm_end(len, rate) as usize,
                            len: len as usize,
                            audible,
                        },
                        last_len: len,
                        ..p
                    },
                    ActionView::Transcribe { start: p.confirmed_to, end: confirm_end(len, rate) },
                )
            } else {
                hear(PreviewView { last_len: len, ..p }, start, len, audible)
            }
        },
        EventView::Transcribed(answer) => match p.phase {
            Phase::Confirming { start, end, len, audible } => hear(
                PreviewView {
                    confirmed: extended(p.confirmed, answer),
                    confirmed_to: end as nat,
                    ..p
                },
                start as nat,
                len as nat,
                audible,
            ),
            _ => match answer {
                Some(tail) => (
                    PreviewView { phase: Phase::Showing, ..p },
                    ActionView::Show(full_text(p.confirmed, tail)),
                ),
                None => (PreviewView { phase: Phase::Polling, ..p }, ActionView::Poll),
            },
        },
        EventView::Shown => (PreviewView { phase: Phase::Polling, ..p }, ActionView::Poll),
    }
}

/// The preview's text: the window's text behind the confirmed prefix.
pub fn combine(confirmed: &str, tail: String) -> (r: String)
    ensures
        r@ == full_text(confirmed@, tail@),
{
    if confirmed.is_empty() {
        tail
    } else {
        let head: String = text::join(text::trim(confirmed).as_str(), " ");
        text::join(head.as_str(), text::trim(tail.as_str()).as_str())
    }
}

/// The prefix after the recogniser was asked for the text of another part.
pub fn extend(confirmed: &str, answer: Option<String>) -> (r: String)
    ensures
        r@ == extended(
            confirmed@,
            match answer {
                Some(t) => Some(t@),
                None => None,
            },
        ),
{
    match answer {
        None => confirmed.to_owned(),
        Some(t) => if t.as_str().is_empty() {
            confirmed.to_owned()
        } else if confirmed.is_empty() {
            t
        } else {
            let head: String = text::join(confirmed, " ");
            text::join(head.as_str(), t.as_str())
        },
    }
}

impl Preview {
    /// The preview of a recording that has just begun. Its first action is
    /// [`Action::Poll`].
    pub fn new() -> (r: Preview)
        ensures
            r@ == fresh(),
    {
        Preview { phase: Phase::Polling, last_len: 0, confirmed: String::new(), confirmed_to: 0 }
    }

    /// Says whether [`step`](Preview::step) may take the event now.
    pub fn accepts(&self, event: &Event) -> (r: bool)
        ensures
            r == expects(self@, event@),
    {
        match event {
            Event::Polled { .. } => matches!(self.phase, Phase::Polling),
            Event::Woke { .. } => matches!(self.phase, Phase::Sleeping),
            Event::Captured { len, rate } => matches!(self.phase, Phase::Capturing) && (*len
                <= self.last_len || *rate > 0),
            Event::Transcribed(_) => matches!(self.phase, Phase::Confirming { .. })
                || matches!(self.phase, Phase::Hearing),
            Event::Shown => matches!(self.phase, Phase::Showing),
        }
    }

    fn listen(&mut self, start: usize, end: usize, audible: bool) -> (r: Action)
        ensures
            final(self)@ == hear(old(self)@, start as nat, end as nat, audible).0,
            r@ == hear(old(self)@, start as nat, end as nat, audible).1,
    {
        if audible {
            self.phase = Phase::Hearing;
            Action::Transcribe { start, end }
        } else {
            self.phase = Phase::Polling;
            Action::Poll
        }
    }

    fn captured(&mut self, len: usize, rate: u32) -> (r: Action)
        requires
            expects(old(self)@, (EventView::Captured { len: len as nat, rate: rate as nat })),
        ensures
            final(self)@ == next(
                old(self)@,
                (EventView::Captured { len: len as nat, rate: rate as nat }),
            ).0,
            r@ == next(
                old(self)@,
                (EventView::Captured { len: len as nat, rate: rate as nat }),
            ).1,
    {
        if len <= self.last_len {
            self.phase = Phase::Polling;
            return Action::Poll;
        }
        self.last_len = len;
        let window: usize = audio::window_samples(rate);
        let overlap: usize = audio::overlap_samples(rate);
        proof {
            audio::overlap_within_window(rate as nat);
        }
        let start: usize = if len > window {
            len - window
        } else {
            0
        };
        let audible: bool = audio::resampled_len(len - start, rate) >= MIN_SAMPLES;
        if start > self.confirmed_to {
            let end: usize = start + overlap;
            self.phase = Phase::Confirming { start, end, len, audible };
            return Action::Transcribe { start: self.confirmed_to, end };
        }
        self.listen(start, len, audible)
    }

    /// Takes the answer to the last action and gives the next.
    pub fn step(&mut self, event: Event) -> (r: Action)
        requires
            expects(old(self)@, event@),
        ensures
            final(self)@ == next(old(self)@, event@).0,
            r@ == next(old(self)@, event@).1,
    {
        match event {
            Event::Polled { recording } => if recording {
                self.phase = Phase::Sleeping;
                Action::Sleep(PASS_INTERVAL_MS)
            } else {
                self.phase = Phase::Stopped;
                Action::Stop
            },
            Event::Woke { recording } => if recording {
                self.phase = Phase::Capturing;
                Action::Capture
            } else {
                self.phase = Phase::Stopped;
                Action::Stop
            },
            Event::Captured { len, rate } => self.captured(len, rate),
            Event::Transcribed(answer) => match self.phase {
                Phase::Confirming { start, end, len, audible } => {
                    self.confirmed = extend(self.confirmed.as_str(), answer);
                    self.confirmed_to = end;
                    self.listen(start, len, audible)
                },
                _ => match answer {
                    Some(tail) => {
                        self.phase = Phase::Showing;
                        Action::Show(combine(self.confirmed.as_str(), tail))
                    },
                    None => {
                        self.phase = Phase::Polling;
                        Action::Poll
                    },
                },
            },
            Event::Shown => {
                self.phase = Phase::Polling;
                Action::Poll
            },
        }
    }
}

/// State after a run of events.
pub open spec fn state_after(p: PreviewView, events: Seq<EventView>) -> PreviewView
    decreases events.len(),
{
    if events.len() == 0 {
        p
    } else {
        next(state_after(p, events.drop_last()), events.last()).0
    }
}

/// Every event of the run comes when it is expected.
pub open spec fn is_run(p: PreviewView, events: Seq<EventView>) -> bool
    decreases events.len(),
{
    events.len() == 0 || (is_run(p, events.drop_last()) && expects(
        state_after(p, events.drop_last()),
        events.last(),
    ))
}

/// A preview that has just begun.
pub open spec fn fresh() -> PreviewView {
    PreviewView {
        phase: Phase::Polling,
        last_len: 0,
        confirmed: Seq::empty(),
        confirmed_to: 0,
    }
}

/// The action that the last event of a run leads to.
pub open spec fn last_action(p: PreviewView, events: Seq<EventView>) -> ActionView
    recommends
        events.len() > 0,
{
    next(state_after(p, events.drop_last()), events.last()).1
}

/// All audio of the run has the rate `rate`.
pub open spec fn is_at_rate(events: Seq<EventView>, rate: nat) -> bool {
    &&& rate <= u32::MAX
    &&& forall|i: int|
        0 <= i < events.len() ==> (#[trigger] events[i] matches EventView::Captured {
            len,
            rate: r,
        } ==> len <= usize::MAX && r == rate)
}

/// A stretch of audio that was transcribed for the prefix, and what came of it.
pub struct Part {
    pub start: nat,
    pub end: nat,
    pub text: Option<Seq<char>>,
}

/// The parts that a run of events transcribed for the prefix, in order.
pub open spec fn parts(events: Seq<EventView>) -> Seq<Part>
    decreases events.len(),
{
    if events.len() == 0 {
        Seq::empty()
    } else {
        let before = state_after(fresh(), events.drop_last());
        match (before.phase, events.last()) {
            (Phase::Confirming { end, .. }, EventView::Transcribed(text)) => parts(
                events.drop_last(),
            ).push(Part { start: before.confirmed_to, end: end as nat, text }),
            _ => parts(events.drop_last()),
        }
    }
}

/// The parts lie end to end, from the first sample up to `to`.
pub open spec fn cover(parts: Seq<Part>, to: nat) -> bool
    decreases parts.len(),
{
    if parts.len() == 0 {
        to == 0
    } else {
        &&& parts.last().start < parts.last().end
        &&& parts.last().end == to
        &&& cover(parts.drop_last(), parts.last().start)
    }
}

/// The texts of the parts, one behind the other.
pub open spec fn prefix_of(parts: Seq<Part>) -> Seq<char>
    decreases parts.len(),
{
    if parts.len() == 0 {
        Seq::empty()
    } else {
        extended(prefix_of(parts.drop_last()), parts.last().text)
    }
}

/// The prefix reaches at least to where the window of the last pass starts, or
/// is about to.
pub open spec fn is_on_track(p: PreviewView, rate: nat) -> bool {
    &&& p.confirmed_to <= p.last_len <= usize::MAX
    &&& match p.phase {
        Phase::Confirming { start, end, len, audible } => {
            &&& p.confirmed_to < start
            &&& start == window_start(p.last_len, rate)
            &&& end == confirm_end(p.last_len, rate)
            &&& len == p.last_len
        },
        _ => window_start(p.last_len, rate) <= p.confirmed_to,
    }
}

/// A run without its last event keeps its rate.
proof fn lemma_rate_of_rest(events: Seq<EventView>, rate: nat)
    requires
        is_at_rate(events, rate),
        events.len() > 0,
    ensures
        is_at_rate(events.drop_last(), rate),
{
    let rest = events.drop_last();
    assert forall|i: int| 0 <= i < rest.len() implies (
    #[trigger] rest[i] matches EventView::Captured { len, rate: r } ==> len <= usize::MAX && r
        == rate) by {
        assert(rest[i] == events[i]);
    }
}

proof fn lemma_on_track(events: Seq<EventView>, rate: nat)
    requires
        is_run(fresh(), events),
        is_at_rate(events, rate),
    ensures
        is_on_track(state_after(fresh(), events), rate),
        cover(parts(events), state_after(fresh(), events).confirmed_to),
        prefix_of(parts(events)) == state_after(fresh(), events).confirmed,
    decreases events.len(),
{
    audio::overlap_within_window(rate);
    if events.len() > 0 {
        let before = events.drop_last();
        lemma_rate_of_rest(events, rate);
        lemma_on_track(before, rate);
        assert(events.last() == events[events.len() - 1]);
        let p = state_after(fresh(), before);
        if p.phase is Confirming && events.last() is Transcribed {
            assert(parts(events).drop_last() =~= parts(before));
        }
    } else {
        assert(window_start(0, rate) == 0);
    }
}

/// Audio that scrolls out of the window is kept, however long the recording: at
/// every pass the prefix reaches into the window, or up to it, and it is made
/// from parts that lie end to end from the first sample on. No sample lies
/// between the prefix and the window, and none is sent for the prefix twice.
/// The text that is then shown is the texts of all the parts, in order, and the
/// window's text behind them.
pub proof fn no_audio_is_lost(events: Seq<EventView>, rate: nat, tail: Seq<char>)
    requires
        is_run(fresh(), events),
        is_at_rate(events, rate),
        state_after(fresh(), events).phase is Hearing,
    ensures
        ({
            let p = state_after(fresh(), events);
            &&& last_action(fresh(), events) == (ActionView::Transcribe {
                start: window_start(p.last_len, rate),
                end: p.last_len,
            })
            &&& window_start(p.last_len, rate) <= p.confirmed_to <= p.last_len
            &&& cover(parts(events), p.confirmed_to)
            &&& next(p, EventView::Transcribed(Some(tail))).1 == ActionView::Show(
                full_text(prefix_of(parts(events)), tail),
            )
        }),
{
    lemma_on_track(events, rate);
    let before = events.drop_last();
    lemma_rate_of_rest(events, rate);
    lemma_on_track(before, rate);
    assert(events.last() == events[events.len() - 1]);
}

/// The action hears the window: all of the audio while that is at most a window
/// long, and exactly the last window of it after that.
pub open spec fn is_live_pass(a: ActionView, len: nat, rate: nat) -> bool {
    a matches ActionView::Transcribe { start, end } && end == len && start == window_start(len, rate)
        && end - start <= audio::window_len(rate) && (len > audio::window_len(rate) ==> end - start
        == audio::window_len(rate))
}

/// The cost of a pass does not grow with the recording, whatever the recogniser
/// answered before: what is sent to be heard is at most a window, and what is
/// sent to be confirmed was not sent for that before and is longer than the
/// audio that came since the last pass by at most the overlap.
pub proof fn pass_cost_is_bounded(
    before: Seq<EventView>,
    len: nat,
    rate: nat,
    answer: Option<Seq<char>>,
)
    requires
        is_run(fresh(), before),
        is_at_rate(before, rate),
        expects(state_after(fresh(), before), (EventView::Captured { len, rate })),
        len <= usize::MAX,
    ensures
        ({
            let p = state_after(fresh(), before);
            let (q, a) = next(p, EventView::Captured { len, rate });
            let (r, b) = next(q, EventView::Transcribed(answer));
            &&& a matches ActionView::Transcribe { start, end } ==> if q.phase is Confirming {
                &&& start == p.confirmed_to
                &&& start < end <= len
                &&& end - start <= (len - p.last_len) + audio::overlap_len(rate)
            } else {
                is_live_pass(a, len, rate)
            }
            &&& q.phase is Confirming ==> b is Poll || is_live_pass(b, len, rate)
        }),
{
    lemma_on_track(before, rate);
    audio::overlap_within_window(rate);
}

/// When audio is confirmed, the part that is confirmed and the window together
/// cover all that the prefix did not reach, and they share exactly the overlap,
/// so that no word is cut between them.
pub proof fn confirming_leaves_no_gap(p: PreviewView, len: nat, rate: nat)
    requires
        expects(p, (EventView::Captured { len, rate })),
        len > p.last_len,
        window_start(len, rate) > p.confirmed_to,
        rate <= u32::MAX,
        len <= usize::MAX,
    ensures
        next(p, (EventView::Captured { len, rate })).1 == (ActionView::Transcribe {
            start: p.confirmed_to,
            end: confirm_end(len, rate),
        }),
        next(p, (EventView::Captured { len, rate })).0.phase == (Phase::Confirming {
            start: window_start(len, rate) as usize,
            end: confirm_end(len, rate) as usize,
            len: len as usize,
            audible: is_audible(len, rate),
        }),
        window_start(len, rate) <= confirm_end(len, rate) <= len,
        confirm_end(len, rate) - window_start(len, rate) == audio::overlap_len(rate),
{
    audio::overlap_within_window(rate);
}

/// The prefix only ever grows at its end: what it holds stays as it is for the
/// rest of the recording.
pub proof fn prefix_is_kept(p: PreviewView, events: Seq<EventView>)
    requires
        is_run(p, events),
    ensures
        p.confirmed.is_prefix_of(state_after(p, events).confirmed),
    decreases events.len(),
{
    if events.len() > 0 {
        prefix_is_kept(p, events.drop_last());
        let c = state_after(p, events.drop_last()).confirmed;
        let d = state_after(p, events).confirmed;
        assert(c.is_prefix_of(d));
        assert(d.subrange(0, p.confirmed.len() as int) =~= c.subrange(
            0,
            p.confirmed.len() as int,
        ));
    }
}

/// Shown text is the window's text, behind the confirmed prefix where there is
/// one, with one space between the two.
pub proof fn shown_text_is_prefix_and_tail(p: PreviewView, tail: Seq<char>)
    requires
        p.phase is Hearing,
    ensures
        p.confirmed.len() == 0 ==> next(p, EventView::Transcribed(Some(tail))).1
            == ActionView::Show(tail),
        p.confirmed.len() > 0 ==> next(p, EventView::Transcribed(Some(tail))).1
            == ActionView::Show(text::trimmed(p.confirmed) + " "@ + text::trimmed(tail)),
{
}

/// A pass without new audio transcribes nothing and changes nothing.
pub proof fn no_new_audio_no_work(p: PreviewView, len: nat, rate: nat)
    requires
        expects(p, (EventView::Captured { len, rate })),
        len <= p.last_len,
    ensures
        next(p, (EventView::Captured { len, rate })) == (
            (PreviewView { phase: Phase::Polling, ..p }),
            ActionView::Poll,
        ),
{
}

/// The preview ends at the first look after the recording has ended, with no
/// further pass.
pub proof fn ends_with_the_recording(p: PreviewView)
    ensures
        next(p, (EventView::Polled { recording: false })).1 is Stop,
        next(p, (EventView::Woke { recording: false })).1 is Stop,
{
}

/// What a pass with new audio does, at every length and rate. The window is the
/// last eight seconds, or all of the audio while that is less. If it becomes at
/// least half a second of samples for the recogniser, it is sent to it in this
/// pass, whole and nothing else; if not, it is not. Where the window has moved on
/// from what was sent for the last time, that is sent first, from just there to
/// an overlap into the window; then the window follows, whatever came back.
pub proof fn window_is_heard_if_long_enough(
    p: PreviewView,
    len: nat,
    rate: nat,
    answer: Option<Seq<char>>,
)
    requires
        p.phase is Capturing,
        p.last_len < len <= usize::MAX,
        0 < rate <= u32::MAX,
    ensures
        ({
            let window = audio::window_len(rate);
            let start = if len > window {
                (len - window) as nat
            } else {
                0
            };
            let long = audio::output_len((len - start) as nat, rate) >= 8000;
            let heard = ActionView::Transcribe { start, end: len };
            let (q, a) = next(p, EventView::Captured { len, rate });
            let (r, b) = next(q, EventView::Transcribed(answer));
            &&& expects(p, EventView::Captured { len, rate })
            &&& q.last_len == len
            &&& start <= p.confirmed_to && long ==> a == heard && q.phase is Hearing
            &&& start <= p.confirmed_to && !long ==> a is Poll && q.phase is Polling
            &&& start <= p.confirmed_to ==> q.confirmed == p.confirmed && q.confirmed_to
                == p.confirmed_to
            &&& start > p.confirmed_to ==> {
                &&& a == (ActionView::Transcribe {
                    start: p.confirmed_to,
                    end: (start + audio::overlap_len(rate)) as nat,
                })
                &&& expects(q, EventView::Transcribed(answer))
                &&& r.confirmed_to == start + audio::overlap_len(rate)
                &&& long ==> b == heard && r.phase is Hearing
                &&& !long ==> b is Poll && r.phase is Polling
            }
        }),
{
    audio::overlap_within_window(rate);
}

/// The text of a part that was sent for the last time goes to the end of the
/// prefix, behind one space where there is a prefix; no text, and no answer,
/// leave the prefix as it is.
pub proof fn confirmed_text_goes_to_the_end(p: PreviewView, t: Seq<char>)
    requires
        p.phase is Confirming,
    ensures
        next(p, EventView::Transcribed(None)).0.confirmed == p.confirmed,
        t.len() == 0 ==> next(p, EventView::Transcribed(Some(t))).0.confirmed == p.confirmed,
        t.len() > 0 && p.confirmed.len() == 0 ==> next(
            p,
            EventView::Transcribed(Some(t)),
        ).0.confirmed == t,
        t.len() > 0 && p.confirmed.len() > 0 ==> next(
            p,
            EventView::Transcribed(Some(t)),
        ).0.confirmed == p.confirmed + seq![' '] + t,
{
    reveal_strlit(" ");
    assert(" "@ =~= seq![' ']);
}

/// The window's text is shown at once, behind the prefix where there is one; if
/// the recogniser fails, nothing is shown. Either way the preview goes on.
pub proof fn window_text_is_shown(p: PreviewView, tail: Seq<char>)
    requires
        p.phase is Hearing,
    ensures
        ({
            let (q, a) = next(p, EventView::Transcribed(Some(tail)));
            &&& p.confirmed.len() == 0 ==> a == ActionView::Show(tail)
            &&& p.confirmed.len() > 0 ==> a == ActionView::Show(
                text::trimmed(p.confirmed) + seq![' '] + text::trimmed(tail),
            )
            &&& next(q, EventView::Shown).1 is Poll
            &&& expects(q, EventView::Shown)
            &&& next(q, EventView::Shown).0 == (PreviewView { phase: Phase::Polling, ..p })
        }),
        next(p, EventView::Transcribed(None)) == (
            (PreviewView { phase: Phase::Polling, ..p }),
            ActionView::Poll,
        ),
{
    reveal_strlit(" ");
    assert(" "@ =~= seq![' ']);
}

/// As long as the recording goes on, the preview looks at it every 450 ms.
pub proof fn preview_looks_again(p: PreviewView)
    ensures
        next(p, (EventView::Polled { recording: true })) == (
            (PreviewView { phase: Phase::Sleeping, ..p }),
            ActionView::Sleep(450),
        ),
        next(p, (EventView::Woke { recording: true })) == (
            (PreviewView { phase: Phase::Capturing, ..p }),
            ActionView::Capture,
        ),
{
}

/// Every answer to an action is expected, whatever it says, but for new audio
/// without a sample rate.
pub proof fn answers_are_expected(p: PreviewView, e: EventView, answer: EventView)
    requires
        expects(p, e),
        answer matches EventView::Captured { len, rate } ==> rate > 0 || len <= p.last_len,
    ensures
        answer is Polled ==> expects(fresh(), answer),
        next(p, e).1 is Poll && answer is Polled ==> expects(next(p, e).0, answer),
        next(p, e).1 is Sleep && answer is Woke ==> expects(next(p, e).0, answer),
        next(p, e).1 is Capture && answer is Captured ==> expects(next(p, e).0, answer),
        next(p, e).1 is Transcribe && answer is Transcribed ==> expects(next(p, e).0, answer),
        next(p, e).1 is Show && answer is Shown ==> expects(next(p, e).0, answer),
{
}

/// Events, actions and the state are seen with all that they hold.
pub proof fn views_hold_everything(p: Preview, t: String, n: usize, m: usize, rate: u32)
    ensures
        p@.phase == p.phase,
        p@.last_len == p.last_len,
        p@.confirmed == p.confirmed@,
        p@.confirmed_to == p.confirmed_to,
        (Event::Captured { len: n, rate })@ == (EventView::Captured {
            len: n as nat,
            rate: rate as nat,
        }),
        Event::Transcribed(Some(t))@ == EventView::Transcribed(Some(t@)),
        Event::Transcribed(None)@ == EventView::Transcribed(None),
        (Action::Transcribe { start: n, end: m })@ == (ActionView::Transcribe {
            start: n as nat,
            end: m as nat,
        }),
        Action::Show(t)@ == ActionView::Show(t@),
{
}

/// A preview starts from nothing: no audio, no text, nothing sent.
pub proof fn preview_starts_from_nothing()
    ensures
        fresh().phase is Polling,
        fresh().last_len == 0,
        fresh().confirmed.len() == 0,
        fresh().confirmed_to == 0,
{
}

} // verus!
