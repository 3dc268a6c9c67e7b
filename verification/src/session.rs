//! Starting, stopping and cancelling a recording, and turning recorded audio
//! into text on the clipboard.
use crate::audio;
use vstd::prelude::*;

verus! {

/// Sample rate that a recording has until the microphone reports its own.
pub const INITIAL_RATE: u32 = 16000;

/// Whether a recording is under way.
#[derive(Clone, Copy, Debug, PartialEq, Eq)]
pub struct Session {
    pub recording: bool,
}

/// A request to the session.
pub enum Command {
    /// Start recording; the preview's recogniser could be loaded or not.
    Start { loaded: bool },
    /// Stop recording and transcribe.
    Stop,
    /// Stop recording and give the audio up.
    Cancel,
}

/// The command has an effect.
pub open spec fn takes(recording: bool, c: Command) -> bool {
    match c {
        Command::Start { loaded } => !recording && loaded,
        Command::Stop => recording,
        Command::Cancel => recording,
    }
}

/// Whether a recording is under way after the command.
pub open spec fn recording_after(recording: bool, c: Command) -> bool {
    if takes(recording, c) {
        c is Start
    } else {
        recording
    }
}

impl Session {
    /// No recording.
    pub fn new() -> (r: Session)
        ensures
            !r.recording,
    {
        Session { recording: false }
    }

    /// Says whether a recording may start.
    pub fn may_start(&self) -> (r: Result<(), String>)
        ensures
            r is Ok <==> !self.recording,
            r matches Err(e) ==> e@ == "already recording"@,
    {
        if self.recording {
            Err("already recording".to_owned())
        } else {
            Ok(())
        }
    }

    /// Starts a recording, given the attempt to load the preview's recogniser.
    pub fn start_recording(&mut self, streaming: Result<(), String>) -> (r: Result<(), String>)
        ensures
            old(self).recording ==> (r matches Err(e) && e@ == "already recording"@),
            !old(self).recording ==> r == streaming,
            r is Ok <==> takes(
                old(self).recording,
                (Command::Start { loaded: streaming is Ok }),
            ),
            final(self).recording == recording_after(
                old(self).recording,
                (Command::Start { loaded: streaming is Ok }),
            ),
    {
        match self.may_start() {
            Err(e) => Err(e),
            Ok(()) => {
                if streaming.is_ok() {
                    self.recording = true;
                }
                streaming
            },
        }
    }

    /// Ends the recording to transcribe it.
    pub fn stop_recording(&mut self) -> (r: Result<(), String>)
        ensures
            r is Ok <==> takes(old(self).recording, Command::Stop),
            r matches Err(e) ==> e@ == "not recording"@,
            final(self).recording == recording_after(old(self).recording, Command::Stop),
            !final(self).recording,
    {
        if self.recording {
            self.recording = false;
            Ok(())
        } else {
            Err("not recording".to_owned())
        }
    }

    /// Ends the recording, if there is one, and gives its audio up. Says whether
    /// there was one.
    pub fn cancel_recording(&mut self) -> (r: bool)
        ensures
            r == takes(old(self).recording, Command::Cancel),
            final(self).recording == recording_after(old(self).recording, Command::Cancel),
            !final(self).recording,
    {
        let was: bool = self.recording;
        self.recording = false;
        was
    }
}

/// Whether a recording is under way after a run of commands.
pub open spec fn recording_after_all(commands: Seq<Command>) -> bool
    decreases commands.len(),
{
    if commands.len() == 0 {
        false
    } else {
        recording_after(recording_after_all(commands.drop_last()), commands.last())
    }
}

/// Recordings that a run of commands started.
pub open spec fn started(commands: Seq<Command>) -> nat
    decreases commands.len(),
{
    if commands.len() == 0 {
        0
    } else {
        let before = recording_after_all(commands.drop_last());
        started(commands.drop_last()) + if commands.last() is Start && takes(
            before,
            commands.last(),
        ) {
            1nat
        } else {
            0
        }
    }
}

/// Recordings that a run of commands ended.
pub open spec fn ended(commands: Seq<Command>) -> nat
    decreases commands.len(),
{
    if commands.len() == 0 {
        0
    } else {
        let before = recording_after_all(commands.drop_last());
        ended(commands.drop_last()) + if !(commands.last() is Start) && takes(
            before,
            commands.last(),
        ) {
            1nat
        } else {
            0
        }
    }
}

/// There is at most one recording at a time: whatever the commands, every
/// recording that was started has been ended, but for the one under way.
pub proof fn one_recording_at_a_time(commands: Seq<Command>)
    ensures
        started(commands) == ended(commands) + if recording_after_all(commands) {
            1nat
        } else {
            0
        },
    decreases commands.len(),
{
    if commands.len() > 0 {
        one_recording_at_a_time(commands.drop_last());
    }
}

/// After a cancel a new recording can start at once, and stopping is refused.
pub proof fn cancel_allows_restart(recording: bool)
    ensures
        takes(recording_after(recording, Command::Cancel), (Command::Start { loaded: true })),
        !takes(recording_after(recording, Command::Cancel), Command::Stop),
{
}

/// Where the audio of a transcription comes from.
#[derive(Clone, Copy, Debug, PartialEq, Eq)]
pub enum Source {
    /// A recording of so many samples at so many a second.
    Microphone { len: usize, rate: u32 },
    /// A sound file of so many samples, ready for the recogniser.
    File { len: usize },
}

/// What a transcription waits for.
#[derive(Clone, Copy, Debug, PartialEq, Eq)]
pub enum Phase {
    /// For the quality recogniser.
    LoadingFinal,
    /// For the preview's recogniser, in place of the other.
    LoadingStreaming,
    /// For the text.
    Transcribing,
    /// For the text to be on the clipboard.
    Copying,
    /// For nothing more.
    Finished,
}

/// A transcription from audio to clipboard.
pub struct FinalPass {
    pub source: Source,
    pub phase: Phase,
    /// The text, once there is one.
    pub text: Option<String>,
}

/// An outcome that the caller reports.
pub enum Event {
    /// Answer to [`Action::LoadFinal`]; an error too where the recogniser is not
    /// ready yet.
    FinalLoaded(Result<(), String>),
    /// Answer to [`Action::LoadStreaming`].
    StreamingLoaded(Result<(), String>),
    /// Answer to [`Action::Transcribe`].
    Transcribed(Result<String, String>),
    /// Answer to [`Action::Transcribe`] where the task broke off.
    TaskFailed,
    /// Answer to [`Action::Copy`].
    Copied(Result<(), String>),
}

/// What the caller is to do next.
#[derive(Debug, PartialEq, Eq)]
pub enum Action {
    /// Get the quality recogniser ready. Where that is already under way, wait
    /// for it or report at once that it is not ready.
    LoadFinal { wait: bool },
    /// Get the preview's recogniser ready. Where that is already under way, wait
    /// for it.
    LoadStreaming,
    /// Transcribe the samples from `start` up to `end`, with the quality
    /// recogniser or the preview's.
    Transcribe { quality: bool, start: usize, end: usize },
    /// Put the text on the clipboard.
    Copy(String),
    /// End with this result.
    Finish(Result<String, String>),
}

/// [`FinalPass`] with its text as characters.
#[verifier::ext_equal]
pub struct PassView {
    pub source: Source,
    pub phase: Phase,
    pub text: Option<Seq<char>>,
}

/// [`Event`] with its texts as characters.
pub enum EventView {
    FinalLoaded(Result<(), Seq<char>>),
    StreamingLoaded(Result<(), Seq<char>>),
    Transcribed(Result<Seq<char>, Seq<char>>),
    TaskFailed,
    Copied(Result<(), Seq<char>>),
}

/// [`Action`] with its texts as characters.
pub enum ActionView {
    LoadFinal { wait: bool },
    LoadStreaming,
    Transcribe { quality: bool, start: nat, end: nat },
    Copy(Seq<char>),
    Finish(Result<Seq<char>, Seq<char>>),
}

/// An outcome with its error as characters.
pub open spec fn outcome(r: Result<(), String>) -> Result<(), Seq<char>> {
    match r {
        Ok(()) => Ok(()),
        Err(e) => Err(e@),
    }
}

/// A text or an error as characters.
pub open spec fn answer(r: Result<String, String>) -> Result<Seq<char>, Seq<char>> {
    match r {
        Ok(t) => Ok(t@),
        Err(e) => Err(e@),
    }
}

impl View for FinalPass {
    type V = PassView;

    open spec fn view(&self) -> PassView {
        PassView {
            source: self.source,
            phase: self.phase,
            text: match self.text {
                Some(t) => Some(t@),
                None => None,
            },
        }
    }
}

impl View for Event {
    type V = EventView;

    open spec fn view(&self) -> EventView {
        match self {
            Event::FinalLoaded(r) => EventView::FinalLoaded(outcome(*r)),
            Event::StreamingLoaded(r) => EventView::StreamingLoaded(outcome(*r)),
            Event::Transcribed(r) => EventView::Transcribed(answer(*r)),
            Event::TaskFailed => EventView::TaskFailed,
            Event::Copied(r) => EventView::Copied(outcome(*r)),
        }
    }
}

impl View for Action {
    type V = ActionView;

    open spec fn view(&self) -> ActionView {
        match self {
            Action::LoadFinal { wait } => ActionView::LoadFinal { wait: *wait },
            Action::LoadStreaming => ActionView::LoadStreaming,
            Action::Transcribe { quality, start, end } => ActionView::Transcribe {
                quality: *quality,
                start: *start as nat,
                end: *end as nat,
            },
            Action::Copy(t) => ActionView::Copy(t@),
            Action::Finish(r) => ActionView::Finish(answer(*r)),
        }
    }
}

/// Samples of the audio.
pub open spec fn len_of(source: Source) -> nat {
    match source {
        Source::Microphone { len, .. } => len as nat,
        Source::File { len } => len as nat,
    }
}

/// The audio can be resampled: a recording has a sample rate unless it is
/// empty.
pub open spec fn has_rate(source: Source) -> bool {
    source matches Source::Microphone { len, rate } ==> rate > 0 || len == 0
}

/// The event answers what the transcription waits for.
pub open spec fn expects(p: PassView, e: EventView) -> bool {
    match e {
        EventView::FinalLoaded(_) => p.phase is LoadingFinal,
        EventView::StreamingLoaded(_) => p.phase is LoadingStreaming,
        EventView::Transcribed(_) => p.phase is Transcribing,
        EventView::TaskFailed => p.phase is Transcribing,
        EventView::Copied(_) => p.phase is Copying && p.text is Some,
    }
}

/// A recording that holds no sample after resampling. Files are not asked.
pub open spec fn is_silent(source: Source) -> bool {
    has_rate(source) && (source matches Source::Microphone { len, rate } && audio::output_len(
        len as nat,
        rate as nat,
    ) == 0)
}

/// The end of a transcription.
pub open spec fn finished(p: PassView, r: Result<Seq<char>, Seq<char>>) -> (PassView, ActionView) {
    (PassView { phase: Phase::Finished, ..p }, ActionView::Finish(r))
}

/// Transcribes all of the audio with the recogniser at hand, if there is audio
/// that can be resampled.
pub open spec fn recognise(p: PassView, quality: bool) -> (PassView, ActionView) {
    if !has_rate(p.source) {
        finished(p, Err("transcription task failed"@))
    } else if is_silent(p.source) {
        finished(p, Err("no audio captured"@))
    } else {
        (
            PassView { phase: Phase::Transcribing, ..p },
            ActionView::Transcribe { quality, start: 0, end: len_of(p.source) },
        )
    }
}

/// State and action that follow an expected event.
pub open spec fn next(p: PassView, e: EventView) -> (PassView, ActionView) {
    match e {
        EventView::FinalLoaded(Ok(())) => recognise(p, true),
        EventView::FinalLoaded(Err(m)) => if p.source is File {
            finished(p, Err(m))
        } else {
            (PassView { phase: Phase::LoadingStreaming, ..p }, ActionView::LoadStreaming)
        },
        EventView::StreamingLoaded(Ok(())) => recognise(p, false),
        EventView::StreamingLoaded(Err(m)) => finished(p, Err(m)),
        EventView::Transcribed(Ok(t)) => (
            PassView { phase: Phase::Copying, text: Some(t), ..p },
            ActionView::Copy(t),
        ),
        EventView::Transcribed(Err(m)) => finished(p, Err(m)),
        EventView::TaskFailed => finished(p, Err("transcription task failed"@)),
        EventView::Copied(Ok(())) => finished(PassView { text: None, ..p }, Ok(p.text->0)),
        EventView::Copied(Err(m)) => finished(p, Err(m)),
    }
}

/// A transcription that has just begun.
pub open spec fn fresh(source: Source) -> PassView {
    PassView { source, phase: Phase::LoadingFinal, text: None }
}

impl FinalPass {
    /// A transcription of `source`, and its first action. A recording, for which
    /// there is another recogniser, does not wait for the quality recogniser.
    pub fn new(source: Source) -> (r: (FinalPass, Action))
        ensures
            r.0@ == fresh(source),
            r.1@ == (ActionView::LoadFinal { wait: source is File }),
    {
        let pass: FinalPass = FinalPass { source, phase: Phase::LoadingFinal, text: None };
        (pass, Action::LoadFinal { wait: matches!(source, Source::File { .. }) })
    }

    fn finish(&mut self, r: Result<String, String>) -> (a: Action)
        ensures
            final(self)@ == finished(old(self)@, answer(r)).0,
            a@ == finished(old(self)@, answer(r)).1,
    {
        self.phase = Phase::Finished;
        Action::Finish(r)
    }

    fn transcribe(&mut self, quality: bool) -> (a: Action)
        ensures
            final(self)@ == recognise(old(self)@, quality).0,
            a@ == recognise(old(self)@, quality).1,
    {
        if let Source::Microphone { len, rate } = self.source {
            if rate == 0 && len > 0 {
                return self.finish(Err("transcription task failed".to_owned()));
            }
            if audio::resampled_len(len, rate) == 0 {
                return self.finish(Err("no audio captured".to_owned()));
            }
        }
        let end: usize = match self.source {
            Source::Microphone { len, .. } => len,
            Source::File { len } => len,
        };
        self.phase = Phase::Transcribing;
        Action::Transcribe { quality, start: 0, end }
    }

    /// Says whether [`step`](FinalPass::step) may take the event now.
    pub fn accepts(&self, event: &Event) -> (r: bool)
        ensures
            r == expects(self@, event@),
    {
        match event {
            Event::FinalLoaded(_) => matches!(self.phase, Phase::LoadingFinal),
            Event::StreamingLoaded(_) => matches!(self.phase, Phase::LoadingStreaming),
            Event::Transcribed(_) => matches!(self.phase, Phase::Transcribing),
            Event::TaskFailed => matches!(self.phase, Phase::Transcribing),
            Event::Copied(_) => matches!(self.phase, Phase::Copying) && self.text.is_some(),
        }
    }

    /// Takes the answer to the last action and gives the next.
    pub fn step(&mut self, event: Event) -> (a: Action)
        requires
            expects(old(self)@, event@),
        ensures
            final(self)@ == next(old(self)@, event@).0,
            a@ == next(old(self)@, event@).1,
    {
        match event {
            Event::FinalLoaded(Ok(())) => self.transcribe(true),
            Event::FinalLoaded(Err(m)) => match self.source {
                Source::File { .. } => self.finish(Err(m)),
                Source::Microphone { .. } => {
                    self.phase = Phase::LoadingStreaming;
                    Action::LoadStreaming
                },
            },
            Event::StreamingLoaded(Ok(())) => self.transcribe(false),
            Event::StreamingLoaded(Err(m)) => self.finish(Err(m)),
            Event::Transcribed(Ok(t)) => {
                self.phase = Phase::Copying;
                self.text = Some(t.clone());
                Action::Copy(t)
            },
            Event::Transcribed(Err(m)) => self.finish(Err(m)),
            Event::TaskFailed => self.finish(Err("transcription task failed".to_owned())),
            Event::Copied(Ok(())) => {
                let text: String = self.text.take().unwrap();
                self.finish(Ok(text))
            },
            Event::Copied(Err(m)) => self.finish(Err(m)),
        }
    }
}

/// State after a run of events.
pub open spec fn state_after(p: PassView, events: Seq<EventView>) -> PassView
    decreases events.len(),
{
    if events.len() == 0 {
        p
    } else {
        next(state_after(p, events.drop_last()), events.last()).0
    }
}

/// Every event of the run comes when it is expected.
pub open spec fn is_run(p: PassView, events: Seq<EventView>) -> bool
    decreases events.len(),
{
    events.len() == 0 || (is_run(p, events.drop_last()) && expects(
        state_after(p, events.drop_last()),
        events.last(),
    ))
}

/// The action that the last event of a run leads to.
pub open spec fn last_action(p: PassView, events: Seq<EventView>) -> ActionView
    recommends
        events.len() > 0,
{
    next(state_after(p, events.drop_last()), events.last()).1
}

/// A transcription succeeds only when its text has been put on the clipboard:
/// the event before the end is a successful copy, the action before that was to
/// copy this very text, and it is the text that the recogniser gave.
pub proof fn success_means_copied(source: Source, events: Seq<EventView>, t: Seq<char>)
    requires
        is_run(fresh(source), events),
        events.len() > 0,
        last_action(fresh(source), events) == ActionView::Finish(Ok::<Seq<char>, Seq<char>>(t)),
    ensures
        events.last() matches EventView::Copied(Ok(_)),
        events.len() >= 2,
        last_action(fresh(source), events.drop_last()) == ActionView::Copy(t),
        events[events.len() - 2] == EventView::Transcribed(Ok::<Seq<char>, Seq<char>>(t)),
{
    let before = events.drop_last();
    lemma_phase_origin(source, before);
    assert(before.last() == events[events.len() - 2]);
}

/// How each phase has been reached.
proof fn lemma_phase_origin(source: Source, events: Seq<EventView>)
    requires
        is_run(fresh(source), events),
    ensures
        state_after(fresh(source), events).source == source,
        state_after(fresh(source), events).phase is LoadingFinal ==> events.len() == 0,
        state_after(fresh(source), events).phase is LoadingStreaming ==> events.len() == 1
            && source is Microphone && (events[0] matches EventView::FinalLoaded(Err(_))),
        state_after(fresh(source), events).phase is Transcribing ==> ({
            ||| events.len() == 1 && (events[0] matches EventView::FinalLoaded(Ok(_)))
            ||| events.len() == 2 && source is Microphone && (events[0] matches EventView::FinalLoaded(
                Err(_),
            )) && (events[1] matches EventView::StreamingLoaded(Ok(_)))
        }),
        state_after(fresh(source), events).phase is Copying ==> events.len() > 0 && ({
            &&& state_after(fresh(source), events).text is Some
            &&& events.last() == EventView::Transcribed(
                Ok::<Seq<char>, Seq<char>>(state_after(fresh(source), events).text->0),
            )
        }),
    decreases events.len(),
{
    if events.len() > 0 {
        lemma_phase_origin(source, events.drop_last());
    }
}

/// The quality recogniser is used if and only if it could be loaded. Only a
/// recording falls back to the preview's recogniser; a file never does.
pub proof fn quality_unless_unavailable(
    source: Source,
    events: Seq<EventView>,
    quality: bool,
    start: nat,
    end: nat,
)
    requires
        is_run(fresh(source), events),
        events.len() > 0,
        last_action(fresh(source), events) == (ActionView::Transcribe { quality, start, end }),
    ensures
        quality <==> (events[0] matches EventView::FinalLoaded(Ok(_))),
        !quality ==> source is Microphone && events.len() == 2
            && (events[1] matches EventView::StreamingLoaded(Ok(_))),
{
    lemma_phase_origin(source, events.drop_last());
    lemma_phase_origin(source, events);
    if events.len() > 1 {
        assert(events.drop_last()[0] == events[0]);
    }
}

/// What is transcribed is the whole of the audio.
pub proof fn all_audio_is_transcribed(
    source: Source,
    events: Seq<EventView>,
    quality: bool,
    start: nat,
    end: nat,
)
    requires
        is_run(fresh(source), events),
        events.len() > 0,
        last_action(fresh(source), events) == (ActionView::Transcribe { quality, start, end }),
    ensures
        start == 0,
        end == len_of(source),
{
    lemma_phase_origin(source, events.drop_last());
}

/// A recording whose quality recogniser is not ready, for whatever reason, is
/// transcribed with the preview's recogniser; only where that cannot be had
/// either does it fail for want of a recogniser.
pub proof fn falls_back_to_the_preview(source: Source, m: Seq<char>, other: Result<(), Seq<char>>)
    requires
        source is Microphone,
        has_rate(source),
        !is_silent(source),
    ensures
        ({
            let (p, a) = next(fresh(source), EventView::FinalLoaded(Err(m)));
            let (q, b) = next(p, EventView::StreamingLoaded(other));
            &&& a is LoadStreaming
            &&& other is Ok ==> b == (ActionView::Transcribe {
                quality: false,
                start: 0,
                end: len_of(source),
            })
            &&& other matches Err(e) ==> b == ActionView::Finish(Err::<Seq<char>, Seq<char>>(e))
        }),
{
}

/// Transcriptions that a run of events asked for.
pub open spec fn transcriptions(p: PassView, events: Seq<EventView>) -> nat
    decreases events.len(),
{
    if events.len() == 0 {
        0
    } else {
        transcriptions(p, events.drop_last()) + if last_action(p, events) is Transcribe {
            1nat
        } else {
            0
        }
    }
}

/// The audio is transcribed at most once, and exactly once where a text comes
/// out.
pub proof fn transcribes_once(source: Source, events: Seq<EventView>)
    requires
        is_run(fresh(source), events),
    ensures
        transcriptions(fresh(source), events) <= 1,
        events.len() > 0 && (last_action(fresh(source), events) matches ActionView::Finish(Ok(_)))
            ==> transcriptions(fresh(source), events) == 1,
        state_after(fresh(source), events).phase is LoadingFinal || state_after(
            fresh(source),
            events,
        ).phase is LoadingStreaming ==> transcriptions(fresh(source), events) == 0,
        state_after(fresh(source), events).phase is Transcribing || state_after(
            fresh(source),
            events,
        ).phase is Copying ==> transcriptions(fresh(source), events) == 1,
    decreases events.len(),
{
    if events.len() > 0 {
        transcribes_once(source, events.drop_last());
    }
}

/// A recording that comes to no sample is reported and not transcribed.
pub proof fn silence_is_reported(source: Source, events: Seq<EventView>)
    requires
        is_run(fresh(source), events),
        is_silent(source),
    ensures
        !(state_after(fresh(source), events).phase is Transcribing),
        !(state_after(fresh(source), events).phase is Copying),
    decreases events.len(),
{
    if events.len() > 0 {
        silence_is_reported(source, events.drop_last());
        lemma_phase_origin(source, events.drop_last());
    }
}

/// With a recogniser at hand, a recording is transcribed from its first sample
/// to its last if it becomes at least one sample at the recogniser's rate, and a
/// file always is; a recording that becomes none is reported as silent, and one
/// without a sample rate as a failed task. It does not matter which recogniser
/// it is.
pub proof fn audio_is_transcribed_if_there_is_any(
    p: PassView,
    len: usize,
    rate: u32,
    quality: bool,
)
    ensures
        ({
            let loaded = if quality {
                EventView::FinalLoaded(Ok(()))
            } else {
                EventView::StreamingLoaded(Ok(()))
            };
            let mic = PassView { source: Source::Microphone { len, rate }, ..p };
            let file = PassView { source: Source::File { len }, ..p };
            let heard = ActionView::Transcribe { quality, start: 0, end: len as nat };
            &&& next(file, loaded).1 == heard
            &&& rate > 0 && audio::output_len(len as nat, rate as nat) > 0 ==> next(mic, loaded).1
                == heard
            &&& rate > 0 && audio::output_len(len as nat, rate as nat) == 0 ==> next(mic, loaded).1
                == ActionView::Finish(Err::<Seq<char>, Seq<char>>("no audio captured"@))
            &&& rate == 0 && len > 0 ==> next(mic, loaded).1 == ActionView::Finish(
                Err::<Seq<char>, Seq<char>>("transcription task failed"@),
            )
            &&& rate == 0 && len == 0 ==> next(mic, loaded).1 == ActionView::Finish(
                Err::<Seq<char>, Seq<char>>("no audio captured"@),
            )
        }),
{
}

/// Whatever goes wrong, the transcription ends with the message of just that
/// failure. Where only the quality recogniser is missing, a recording goes on.
pub proof fn failures_are_passed_on(p: PassView, m: Seq<char>)
    ensures
        p.source is File ==> next(p, EventView::FinalLoaded(Err(m))).1 == ActionView::Finish(
            Err::<Seq<char>, Seq<char>>(m),
        ),
        p.source is Microphone ==> next(p, EventView::FinalLoaded(Err(m))).1 is LoadStreaming,
        next(p, EventView::StreamingLoaded(Err(m))).1 == ActionView::Finish(
            Err::<Seq<char>, Seq<char>>(m),
        ),
        next(p, EventView::Transcribed(Err(m))).1 == ActionView::Finish(
            Err::<Seq<char>, Seq<char>>(m),
        ),
        next(p, EventView::TaskFailed).1 == ActionView::Finish(
            Err::<Seq<char>, Seq<char>>("transcription task failed"@),
        ),
        next(p, EventView::Copied(Err(m))).1 == ActionView::Finish(Err::<Seq<char>, Seq<char>>(m)),
        next(p, EventView::StreamingLoaded(Err(m))).0.phase is Finished,
        next(p, EventView::Transcribed(Err(m))).0.phase is Finished,
        next(p, EventView::TaskFailed).0.phase is Finished,
        next(p, EventView::Copied(Err(m))).0.phase is Finished,
        next(p, EventView::Copied(Ok(()))).0.phase is Finished,
{
}

/// The text that the recogniser gives is the one that is put on the clipboard,
/// and the one that comes out, unchanged.
pub proof fn text_goes_through_unchanged(p: PassView, t: Seq<char>)
    ensures
        ({
            let (q, a) = next(p, EventView::Transcribed(Ok(t)));
            let (r, b) = next(q, EventView::Copied(Ok(())));
            &&& a == ActionView::Copy(t)
            &&& expects(q, EventView::Copied(Ok(())))
            &&& b == ActionView::Finish(Ok::<Seq<char>, Seq<char>>(t))
        }),
{
}

/// Every answer to an action is expected, whatever it says.
pub proof fn answers_are_expected(source: Source, p: PassView, e: EventView, answer: EventView)
    requires
        expects(p, e),
    ensures
        answer is FinalLoaded ==> expects(fresh(source), answer),
        next(p, e).1 is LoadStreaming && answer is StreamingLoaded ==> expects(next(p, e).0, answer),
        next(p, e).1 is Transcribe && (answer is Transcribed || answer is TaskFailed) ==> expects(
            next(p, e).0,
            answer,
        ),
        next(p, e).1 is Copy && answer is Copied ==> expects(next(p, e).0, answer),
{
}

/// A recording starts exactly if none is under way and the preview's recogniser
/// is there; stopping and cancelling end one exactly if there is one.
pub proof fn commands_do_what_they_say(recording: bool, loaded: bool)
    ensures
        takes(recording, (Command::Start { loaded })) <==> !recording && loaded,
        takes(recording, Command::Stop) <==> recording,
        takes(recording, Command::Cancel) <==> recording,
        recording_after(recording, (Command::Start { loaded })) <==> recording || loaded,
        !recording_after(recording, Command::Stop),
        !recording_after(recording, Command::Cancel),
{
}

/// Events, actions and the state are seen with all that they hold.
pub proof fn views_hold_everything(p: FinalPass, t: String, quality: bool, start: usize, end: usize)
    ensures
        p@.source == p.source,
        p@.phase == p.phase,
        p@.text is Some <==> p.text is Some,
        p.text matches Some(s) ==> p@.text == Some(s@),
        Event::FinalLoaded(Err(t))@ == EventView::FinalLoaded(Err(t@)),
        Event::StreamingLoaded(Err(t))@ == EventView::StreamingLoaded(Err(t@)),
        Event::Transcribed(Ok(t))@ == EventView::Transcribed(Ok(t@)),
        Event::Transcribed(Err(t))@ == EventView::Transcribed(Err(t@)),
        Event::Copied(Err(t))@ == EventView::Copied(Err(t@)),
        (Action::Transcribe { quality, start, end })@ == (ActionView::Transcribe {
            quality,
            start: start as nat,
            end: end as nat,
        }),
        Action::Copy(t)@ == ActionView::Copy(t@),
        Action::Finish(Ok(t))@ == ActionView::Finish(Ok(t@)),
        Action::Finish(Err(t))@ == ActionView::Finish(Err(t@)),
{
}

/// Until the microphone reports its own rate, audio counts as having the
/// recogniser's: it is neither stretched nor cut.
pub proof fn initial_rate_is_the_recognisers(len: nat)
    ensures
        audio::output_len(len, INITIAL_RATE as nat) == len,
        INITIAL_RATE == audio::TARGET_RATE,
{
}

} // verus!
