//! Opening the microphone and keeping it open for one recording.
//!
//! [`Capture::step`] decides; its caller talks to the audio system, and reports
//! each outcome as an [`Event`].
use crate::text;
use vstd::prelude::*;

verus! {

/// Pause between looks at the recording, in milliseconds.
pub const POLL_INTERVAL_MS: u64 = 50;

/// How the microphone delivers samples.
#[derive(Clone, Copy, Debug, PartialEq, Eq)]
pub enum SampleFormat {
    /// Single-precision numbers.
    Single,
    /// Integers of 16 bits.
    Int16,
    /// Anything else.
    Other,
}

/// The microphone's own configuration.
#[derive(Clone, Copy, Debug, PartialEq, Eq)]
pub struct InputConfig {
    pub sample_rate: u32,
    pub channels: u16,
    pub format: SampleFormat,
}

/// What a capture waits for.
#[derive(Clone, Copy, Debug, PartialEq, Eq)]
pub enum Phase {
    /// For an input device.
    Finding,
    /// For its configuration.
    Configuring,
    /// For a stream.
    Building,
    /// For the stream to play.
    Starting,
    /// To hear whether the recording goes on.
    Running,
    /// For nothing more.
    Ended,
}

/// The capture of one recording.
#[derive(Clone, Copy, Debug, PartialEq, Eq)]
pub struct Capture {
    pub phase: Phase,
    /// The sample rate to publish, once it is known.
    pub rate: Option<u32>,
}

/// An outcome that the caller reports.
pub enum Event {
    /// Answer to [`Action::FindDevice`].
    Found(bool),
    /// Answer to [`Action::Configure`].
    Configured(Result<InputConfig, String>),
    /// Answer to [`Action::Build`].
    Built(Result<(), String>),
    /// Answer to [`Action::Play`].
    Played(Result<(), String>),
    /// Answer to [`Action::Poll`] and to [`Action::Sleep`].
    Polled { recording: bool },
}

/// What the caller is to do next.
#[derive(Debug, PartialEq, Eq)]
pub enum Action {
    /// Look for an input device.
    FindDevice,
    /// Ask for its configuration.
    Configure,
    /// Build a stream with this configuration.
    Build(InputConfig),
    /// Let the stream play.
    Play,
    /// Look whether the recording goes on.
    Poll,
    /// Sleep for so many milliseconds, then look whether the recording goes on.
    Sleep(u64),
    /// Log the message and end; there will be no audio.
    Fail(String),
    /// Drop the stream and end.
    Stop,
}

/// [`Event`] with its texts as characters.
pub enum EventView {
    Found(bool),
    Configured(Result<InputConfig, Seq<char>>),
    Built(Result<(), Seq<char>>),
    Played(Result<(), Seq<char>>),
    Polled { recording: bool },
}

/// [`Action`] with its text as characters.
pub enum ActionView {
    FindDevice,
    Configure,
    Build(InputConfig),
    Play,
    Poll,
    Sleep(u64),
    Fail(Seq<char>),
    Stop,
}

impl View for Event {
    type V = EventView;

    open spec fn view(&self) -> EventView {
        match self {
            Event::Found(b) => EventView::Found(*b),
            Event::Configured(Ok(c)) => EventView::Configured(Ok(*c)),
            Event::Configured(Err(e)) => EventView::Configured(Err(e@)),
            Event::Built(r) => EventView::Built(crate::session::outcome(*r)),
            Event::Played(r) => EventView::Played(crate::session::outcome(*r)),
            Event::Polled { recording } => EventView::Polled { recording: *recording },
        }
    }
}

impl View for Action {
    type V = ActionView;

    open spec fn view(&self) -> ActionView {
        match self {
            Action::FindDevice => ActionView::FindDevice,
            Action::Configure => ActionView::Configure,
            Action::Build(c) => ActionView::Build(*c),
            Action::Play => ActionView::Play,
            Action::Poll => ActionView::Poll,
            Action::Sleep(ms) => ActionView::Sleep(*ms),
            Action::Fail(m) => ActionView::Fail(m@),
            Action::Stop => ActionView::Stop,
        }
    }
}

/// The event answers what the capture waits for.
pub open spec fn expects(c: Capture, e: EventView) -> bool {
    match e {
        EventView::Found(_) => c.phase is Finding,
        EventView::Configured(_) => c.phase is Configuring,
        EventView::Built(_) => c.phase is Building,
        EventView::Played(_) => c.phase is Starting,
        EventView::Polled { .. } => c.phase is Running,
    }
}

/// The end of a capture that could not begin.
pub open spec fn failed(c: Capture, message: Seq<char>) -> (Capture, ActionView) {
    (Capture { phase: Phase::Ended, ..c }, ActionView::Fail(message))
}

/// State and action that follow an expected event.
pub open spec fn next(c: Capture, e: EventView) -> (Capture, ActionView) {
    match e {
        EventView::Found(found) => if found {
            (Capture { phase: Phase::Configuring, ..c }, ActionView::Configure)
        } else {
            failed(c, "no input device"@)
        },
        EventView::Configured(Ok(config)) => {
            let known = Capture { rate: Some(config.sample_rate), ..c };
            if config.format is Other {
                failed(known, "unsupported sample format"@)
            } else {
                (Capture { phase: Phase::Building, ..known }, ActionView::Build(config))
            }
        },
        EventView::Configured(Err(m)) => failed(c, "input config error: "@ + m),
        EventView::Built(Ok(())) => (Capture { phase: Phase::Starting, ..c }, ActionView::Play),
        EventView::Built(Err(m)) => failed(c, "build stream error: "@ + m),
        EventView::Played(Ok(())) => (Capture { phase: Phase::Running, ..c }, ActionView::Poll),
        EventView::Played(Err(m)) => failed(c, "stream play error: "@ + m),
        EventView::Polled { recording } => if recording {
            (c, ActionView::Sleep(POLL_INTERVAL_MS))
        } else {
            (Capture { phase: Phase::Ended, ..c }, ActionView::Stop)
        },
    }
}

/// The message for an error that a running stream reports.
pub fn stream_error(e: &str) -> (r: String)
    ensures
        r@ == "audio stream error: "@ + e@,
{
    text::join("audio stream error: ", e)
}

/// A capture that has just begun.
pub open spec fn fresh() -> Capture {
    Capture { phase: Phase::Finding, rate: None }
}

impl Capture {
    /// A capture that has just begun. Its first action is
    /// [`Action::FindDevice`].
    pub fn new() -> (r: Capture)
        ensures
            r == fresh(),
    {
        Capture { phase: Phase::Finding, rate: None }
    }

    fn fail(&mut self, message: String) -> (a: Action)
        ensures
            *final(self) == failed(*old(self), message@).0,
            a@ == failed(*old(self), message@).1,
    {
        self.phase = Phase::Ended;
        Action::Fail(message)
    }

    /// Says whether [`step`](Capture::step) may take the event now.
    pub fn accepts(&self, event: &Event) -> (r: bool)
        ensures
            r == expects(*self, event@),
    {
        match event {
            Event::Found(_) => matches!(self.phase, Phase::Finding),
            Event::Configured(_) => matches!(self.phase, Phase::Configuring),
            Event::Built(_) => matches!(self.phase, Phase::Building),
            Event::Played(_) => matches!(self.phase, Phase::Starting),
            Event::Polled { .. } => matches!(self.phase, Phase::Running),
        }
    }

    /// Takes the answer to the last action and gives the next.
    pub fn step(&mut self, event: Event) -> (a: Action)
        requires
            expects(*old(self), event@),
        ensures
            *final(self) == next(*old(self), event@).0,
            a@ == next(*old(self), event@).1,
    {
        match event {
            Event::Found(found) => if found {
                self.phase = Phase::Configuring;
                Action::Configure
            } else {
                self.fail("no input device".to_owned())
            },
            Event::Configured(Ok(config)) => {
                self.rate = Some(config.sample_rate);
                match config.format {
                    SampleFormat::Other => self.fail("unsupported sample format".to_owned()),
                    _ => {
                        self.phase = Phase::Building;
                        Action::Build(config)
                    },
                }
            },
            Event::Configured(Err(m)) => {
                let message: String = text::join("input config error: ", m.as_str());
                self.fail(message)
            },
            Event::Built(Ok(())) => {
                self.phase = Phase::Starting;
                Action::Play
            },
            Event::Built(Err(m)) => {
                let message: String = text::join("build stream error: ", m.as_str());
                self.fail(message)
            },
            Event::Played(Ok(())) => {
                self.phase = Phase::Running;
                Action::Poll
            },
            Event::Played(Err(m)) => {
                let message: String = text::join("stream play error: ", m.as_str());
                self.fail(message)
            },
            Event::Polled { recording } => if recording {
                Action::Sleep(POLL_INTERVAL_MS)
            } else {
                self.phase = Phase::Ended;
                Action::Stop
            },
        }
    }
}

/// State after a run of events.
pub open spec fn state_after(c: Capture, events: Seq<EventView>) -> Capture
    decreases events.len(),
{
    if events.len() == 0 {
        c
    } else {
        next(state_after(c, events.drop_last()), events.last()).0
    }
}

/// Every event of the run comes when it is expected.
pub open spec fn is_run(c: Capture, events: Seq<EventView>) -> bool
    decreases events.len(),
{
    events.len() == 0 || (is_run(c, events.drop_last()) && expects(
        state_after(c, events.drop_last()),
        events.last(),
    ))
}

/// The microphone's sample rate is published before any stream exists, and
/// never changes during a recording.
pub proof fn rate_is_known_before_audio(before: Seq<EventView>, e: EventView)
    requires
        is_run(fresh(), before),
        expects(state_after(fresh(), before), e),
    ensures
        ({
            let c = state_after(fresh(), before);
            let (d, a) = next(c, e);
            &&& a matches ActionView::Build(config) ==> d.rate == Some(config.sample_rate) && !(
            config.format is Other)
            &&& c.phase is Building || c.phase is Starting || c.phase is Running ==> c.rate is Some
                && d.rate == c.rate
        }),
    decreases before.len(),
{
    if before.len() > 0 {
        rate_is_known_before_audio(before.drop_last(), before.last());
    }
}

/// A running capture ends when the recording does, and at no other time.
pub proof fn runs_as_long_as_the_recording(c: Capture, recording: bool)
    requires
        c.phase is Running,
    ensures
        next(c, (EventView::Polled { recording })).1 is Stop <==> !recording,
        next(c, (EventView::Polled { recording })).0.phase is Running <==> recording,
{
}

/// Whatever the audio system's message, a capture that cannot begin ends with
/// it, behind words that say what failed.
pub proof fn failures_are_named(c: Capture, m: Seq<char>)
    ensures
        next(c, EventView::Found(false)).1 == ActionView::Fail("no input device"@),
        next(c, EventView::Configured(Err(m))).1 == ActionView::Fail("input config error: "@ + m),
        next(c, EventView::Built(Err(m))).1 == ActionView::Fail("build stream error: "@ + m),
        next(c, EventView::Played(Err(m))).1 == ActionView::Fail("stream play error: "@ + m),
        next(c, EventView::Found(false)).0.phase is Ended,
        next(c, EventView::Configured(Err(m))).0.phase is Ended,
        next(c, EventView::Built(Err(m))).0.phase is Ended,
        next(c, EventView::Played(Err(m))).0.phase is Ended,
{
}

/// Whatever the microphone's configuration, its sample rate is published, and
/// the stream is built with just that configuration if its samples are single
/// precision or of 16 bits; any other format is refused.
pub proof fn configuration_is_used_as_it_is(c: Capture, config: InputConfig)
    ensures
        ({
            let (d, a) = next(c, EventView::Configured(Ok(config)));
            &&& d.rate == Some(config.sample_rate)
            &&& config.format is Single || config.format is Int16 ==> a == ActionView::Build(config)
                && d.phase is Building
            &&& config.format is Other ==> a == ActionView::Fail("unsupported sample format"@)
                && d.phase is Ended
        }),
{
}

/// A capture that meets no failure goes from device to configuration, stream
/// and playing, and then looks every 50 ms whether the recording goes on.
pub proof fn capture_gets_under_way(c: Capture)
    ensures
        next(c, EventView::Found(true)).1 is Configure,
        next(c, EventView::Built(Ok(()))).1 is Play,
        next(c, EventView::Played(Ok(()))).1 is Poll,
        next(c, (EventView::Polled { recording: true })).1 == ActionView::Sleep(50),
        next(c, (EventView::Polled { recording: true })).0 == c,
        next(c, (EventView::Polled { recording: false })).1 is Stop,
        next(c, (EventView::Polled { recording: false })).0.phase is Ended,
        next(c, EventView::Built(Ok(()))).0.rate == c.rate,
        next(c, EventView::Played(Ok(()))).0.rate == c.rate,
{
}

/// Every answer to an action is expected, whatever it says.
pub proof fn answers_are_expected(c: Capture, e: EventView, answer: EventView)
    requires
        expects(c, e),
    ensures
        answer is Found ==> expects(fresh(), answer),
        next(c, e).1 is Configure && answer is Configured ==> expects(next(c, e).0, answer),
        next(c, e).1 is Build && answer is Built ==> expects(next(c, e).0, answer),
        next(c, e).1 is Play && answer is Played ==> expects(next(c, e).0, answer),
        (next(c, e).1 is Poll || next(c, e).1 is Sleep) && answer is Polled ==> expects(
            next(c, e).0,
            answer,
        ),
{
}

/// Events and actions are seen with all that they hold.
pub proof fn views_hold_everything(config: InputConfig, m: String)
    ensures
        Event::Configured(Ok(config))@ == EventView::Configured(Ok(config)),
        Event::Configured(Err(m))@ == EventView::Configured(Err(m@)),
        Event::Built(Err(m))@ == EventView::Built(Err(m@)),
        Event::Played(Err(m))@ == EventView::Played(Err(m@)),
        Action::Build(config)@ == ActionView::Build(config),
        Action::Fail(m)@ == ActionView::Fail(m@),
{
}

/// A capture starts by looking for a device, with no sample rate known.
pub proof fn capture_starts_from_nothing()
    ensures
        fresh().phase is Finding,
        fresh().rate is None,
{
}

} // verus!
