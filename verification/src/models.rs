//! The two recogniser models: where they live, and how one is loaded.
//!
//! [`ContextSlot`] decides; its caller looks at the disk, fetches a model and
//! loads it, and reports each outcome as an [`Event`]. A model may be wanted by
//! several callers at a time: the first one gets it ready, and each of the others
//! waits for that or goes without, as it says.
use crate::session;
use crate::text;
use vstd::prelude::*;

verus! {

/// A recogniser model.
#[derive(Clone, Copy, Debug, PartialEq, Eq)]
pub enum Model {
    /// Small and fast, for the live preview.
    Streaming,
    /// Large and accurate, for the final text.
    Final,
}

/// File name of a model.
pub open spec fn filename_of(m: Model) -> Seq<char> {
    match m {
        Model::Streaming => "ggml-base.bin"@,
        Model::Final => "ggml-medium.bin"@,
    }
}

/// Address that a model is fetched from.
pub open spec fn url_of(m: Model) -> Seq<char> {
    match m {
        Model::Streaming =>
            "https://huggingface.co/ggerganov/whisper.cpp/resolve/main/ggml-base.bin"@,
        Model::Final =>
            "https://huggingface.co/ggerganov/whisper.cpp/resolve/main/ggml-medium.bin"@,
    }
}

impl Model {
    /// File name of the model.
    pub fn filename(self) -> (r: String)
        ensures
            r@ == filename_of(self),
    {
        match self {
            Model::Streaming => "ggml-base.bin".to_owned(),
            Model::Final => "ggml-medium.bin".to_owned(),
        }
    }

    /// Address that the model is fetched from.
    pub fn url(self) -> (r: String)
        ensures
            r@ == url_of(self),
    {
        match self {
            Model::Streaming =>
                "https://huggingface.co/ggerganov/whisper.cpp/resolve/main/ggml-base.bin".to_owned(),
            Model::Final =>
                "https://huggingface.co/ggerganov/whisper.cpp/resolve/main/ggml-medium.bin".to_owned(),
        }
    }
}

/// A directory that models live in.
#[derive(Clone, Copy, Debug, PartialEq, Eq)]
pub enum Home {
    /// The `models` directory beside the sources.
    Checkout,
    /// The `models` directory of the application's data.
    AppData,
}

/// Path of a home's directory, relative to the sources or to the application's
/// data.
pub fn home_directory(home: Home) -> (r: String)
    ensures
        r@ == (match home {
            Home::Checkout => "../models"@,
            Home::AppData => "models"@,
        }),
{
    match home {
        Home::Checkout => "../models".to_owned(),
        Home::AppData => "models".to_owned(),
    }
}

/// Settings of a recognition.
#[derive(Debug, PartialEq, Eq)]
pub struct Recognition {
    /// Candidates that greedy decoding keeps.
    pub best_of: i32,
    pub language: String,
    pub translate: bool,
    pub print_progress: bool,
    pub print_realtime: bool,
    pub print_timestamps: bool,
}

/// The settings that both models run with: greedy, the language detected, the
/// text as spoken, nothing printed.
pub fn recognition() -> (r: Recognition)
    ensures
        r.best_of == 1,
        r.language@ == "auto"@,
        !r.translate,
        !r.print_progress,
        !r.print_realtime,
        !r.print_timestamps,
{
    Recognition {
        best_of: 1,
        language: "auto".to_owned(),
        translate: false,
        print_progress: false,
        print_realtime: false,
        print_timestamps: false,
    }
}

/// `r` is what a recognition gives, with either model. `heard` is why the model
/// could not be run on the audio, or the segments that it heard.
pub open spec fn is_recognised(
    heard: Result<Vec<Result<String, String>>, String>,
    r: Result<Seq<char>, Seq<char>>,
) -> bool {
    match heard {
        Err(e) => r == Err::<Seq<char>, Seq<char>>(e@),
        Ok(segments) => text::is_transcript(segments@, r),
    }
}

/// The text of a recognition. `heard` is why the model could not be run on the
/// audio, or the segments that it heard, each of which may be unreadable.
pub fn run_whisper(heard: Result<Vec<Result<String, String>>, String>) -> (r: Result<
    String,
    String,
>)
    ensures
        is_recognised(heard, session::answer(r)),
{
    match heard {
        Err(e) => Err(e),
        Ok(segments) => text::transcript_of(segments),
    }
}

/// Both models make the same of what was heard: the trimmed text of all
/// segments, or an error and no text where the model could not be run or any
/// one segment could not be read.
pub proof fn recognition_is_whole(
    heard: Result<Vec<Result<String, String>>, String>,
    streaming: Result<Seq<char>, Seq<char>>,
    quality: Result<Seq<char>, Seq<char>>,
)
    requires
        is_recognised(heard, streaming),
        is_recognised(heard, quality),
    ensures
        streaming == quality,
        quality matches Ok(t) ==> text::trimmed(t) == t,
        heard matches Ok(segments) ==> text::is_transcript(segments@, quality),
        heard matches Err(e) ==> quality == Err::<Seq<char>, Seq<char>>(e@),
        heard matches Ok(segments) ==> ((exists|i: int|
            0 <= i < segments@.len() && (#[trigger] segments@[i]) is Err) <==> quality is Err),
{
    if let Ok(segments) = heard {
        text::transcript_is_unique(segments@, streaming, quality);
        text::transcript_is_whole(segments@, quality);
    }
}

/// What a slot waits for.
#[derive(Clone, Copy, Debug, PartialEq, Eq)]
pub enum Phase {
    /// For a request.
    Idle,
    /// To hear whether the checkout holds the model.
    ProbingCheckout,
    /// For the application's data directory.
    Locating,
    /// For the models directory to exist.
    CreatingDir,
    /// To hear whether the model's file exists.
    Probing(Home),
    /// For the model to be fetched.
    Fetching(Home),
    /// To hear whether the file's path is text.
    Naming(Home),
    /// For the model to be loaded.
    Loading(Home),
}

/// A place for one loaded model, filled on first use and kept.
#[derive(Clone, Copy, Debug, PartialEq, Eq)]
pub struct ContextSlot {
    pub loaded: bool,
    pub phase: Phase,
}

/// An outcome that the caller reports.
pub enum Event {
    /// The model is wanted. `debug` says that this is a development build,
    /// `wait` that the caller waits where another is getting the model ready.
    Wanted { debug: bool, wait: bool },
    /// Answer to [`Action::ProbeCheckout`].
    CheckoutProbed(bool),
    /// Answer to [`Action::Locate`].
    Located(Result<(), String>),
    /// Answer to [`Action::CreateDir`].
    DirCreated(Result<(), String>),
    /// Answer to [`Action::Probe`].
    Probed(bool),
    /// Answer to [`Action::Fetch`].
    Fetched(Result<(), String>),
    /// Answer to [`Action::NamePath`].
    Named(bool),
    /// Answer to [`Action::Load`].
    Loaded(Result<(), String>),
}

/// What the caller is to do next.
#[derive(Debug, PartialEq, Eq)]
pub enum Action {
    /// Look whether the checkout holds the model.
    ProbeCheckout,
    /// Find the application's data directory.
    Locate,
    /// Create the models directory in it.
    CreateDir,
    /// Look whether the model's file exists.
    Probe(Home),
    /// Fetch the model to its file.
    Fetch(Home),
    /// Look whether the file's path is text.
    NamePath(Home),
    /// Load the model from its file.
    Load(Home),
    /// Wait until the slot is idle, then say again that the model is wanted.
    Wait,
    /// End: the model is ready, or the request failed.
    Finish(Result<(), String>),
}

/// [`Event`] with its texts as characters.
pub enum EventView {
    Wanted { debug: bool, wait: bool },
    CheckoutProbed(bool),
    Located(Result<(), Seq<char>>),
    DirCreated(Result<(), Seq<char>>),
    Probed(bool),
    Fetched(Result<(), Seq<char>>),
    Named(bool),
    Loaded(Result<(), Seq<char>>),
}

/// [`Action`] with its texts as characters.
pub enum ActionView {
    ProbeCheckout,
    Locate,
    CreateDir,
    Probe(Home),
    Fetch(Home),
    NamePath(Home),
    Load(Home),
    Wait,
    Finish(Result<(), Seq<char>>),
}

impl View for Event {
    type V = EventView;

    open spec fn view(&self) -> EventView {
        match self {
            Event::Wanted { debug, wait } => EventView::Wanted { debug: *debug, wait: *wait },
            Event::CheckoutProbed(b) => EventView::CheckoutProbed(*b),
            Event::Located(r) => EventView::Located(session::outcome(*r)),
            Event::DirCreated(r) => EventView::DirCreated(session::outcome(*r)),
            Event::Probed(b) => EventView::Probed(*b),
            Event::Fetched(r) => EventView::Fetched(session::outcome(*r)),
            Event::Named(b) => EventView::Named(*b),
            Event::Loaded(r) => EventView::Loaded(session::outcome(*r)),
        }
    }
}

impl View for Action {
    type V = ActionView;

    open spec fn view(&self) -> ActionView {
        match self {
            Action::ProbeCheckout => ActionView::ProbeCheckout,
            Action::Locate => ActionView::Locate,
            Action::CreateDir => ActionView::CreateDir,
            Action::Probe(h) => ActionView::Probe(*h),
            Action::Fetch(h) => ActionView::Fetch(*h),
            Action::NamePath(h) => ActionView::NamePath(*h),
            Action::Load(h) => ActionView::Load(*h),
            Action::Wait => ActionView::Wait,
            Action::Finish(r) => ActionView::Finish(session::outcome(*r)),
        }
    }
}

/// The event answers what the slot waits for. That the model is wanted can be
/// said at any time.
pub open spec fn expects(s: ContextSlot, e: EventView) -> bool {
    match e {
        EventView::Wanted { .. } => true,
        EventView::CheckoutProbed(_) => s.phase is ProbingCheckout,
        EventView::Located(_) => s.phase is Locating,
        EventView::DirCreated(_) => s.phase is CreatingDir,
        EventView::Probed(_) => s.phase is Probing,
        EventView::Fetched(_) => s.phase is Fetching,
        EventView::Named(_) => s.phase is Naming,
        EventView::Loaded(_) => s.phase is Loading,
    }
}

/// The home that the slot has settled on.
pub open spec fn home_of(p: Phase) -> Home {
    match p {
        Phase::Probing(h) => h,
        Phase::Fetching(h) => h,
        Phase::Naming(h) => h,
        Phase::Loading(h) => h,
        _ => Home::AppData,
    }
}

/// The end of a request.
pub open spec fn finished(loaded: bool, r: Result<(), Seq<char>>) -> (ContextSlot, ActionView) {
    (ContextSlot { loaded, phase: Phase::Idle }, ActionView::Finish(r))
}

/// State and action that follow an expected event.
pub open spec fn next(s: ContextSlot, e: EventView) -> (ContextSlot, ActionView) {
    let h = home_of(s.phase);
    match e {
        EventView::Wanted { debug, wait } => if !(s.phase is Idle) {
            (
                s,
                if wait {
                    ActionView::Wait
                } else {
                    ActionView::Finish(Err("model not ready"@))
                },
            )
        } else if s.loaded {
            finished(true, Ok(()))
        } else if debug {
            (ContextSlot { phase: Phase::ProbingCheckout, ..s }, ActionView::ProbeCheckout)
        } else {
            (ContextSlot { phase: Phase::Locating, ..s }, ActionView::Locate)
        },
        EventView::CheckoutProbed(found) => if found {
            (
                ContextSlot { phase: Phase::Probing(Home::Checkout), ..s },
                ActionView::Probe(Home::Checkout),
            )
        } else {
            (ContextSlot { phase: Phase::Locating, ..s }, ActionView::Locate)
        },
        EventView::Located(Ok(())) => (
            ContextSlot { phase: Phase::CreatingDir, ..s },
            ActionView::CreateDir,
        ),
        EventView::Located(Err(m)) => finished(s.loaded, Err(m)),
        EventView::DirCreated(Ok(())) => (
            ContextSlot { phase: Phase::Probing(Home::AppData), ..s },
            ActionView::Probe(Home::AppData),
        ),
        EventView::DirCreated(Err(m)) => finished(s.loaded, Err(m)),
        EventView::Probed(exists_) => if exists_ {
            (ContextSlot { phase: Phase::Naming(h), ..s }, ActionView::NamePath(h))
        } else {
            (ContextSlot { phase: Phase::Fetching(h), ..s }, ActionView::Fetch(h))
        },
        EventView::Fetched(Ok(())) => (
            ContextSlot { phase: Phase::Naming(h), ..s },
            ActionView::NamePath(h),
        ),
        EventView::Fetched(Err(m)) => finished(s.loaded, Err(m)),
        EventView::Named(is_text) => if is_text {
            (ContextSlot { phase: Phase::Loading(h), ..s }, ActionView::Load(h))
        } else {
            finished(s.loaded, Err("invalid model path"@))
        },
        EventView::Loaded(Ok(())) => finished(true, Ok(())),
        EventView::Loaded(Err(m)) => finished(s.loaded, Err(m)),
    }
}

impl ContextSlot {
    /// A slot that holds nothing yet.
    pub fn new() -> (r: ContextSlot)
        ensures
            r == (ContextSlot { loaded: false, phase: Phase::Idle }),
    {
        ContextSlot { loaded: false, phase: Phase::Idle }
    }

    fn home(&self) -> (r: Home)
        ensures
            r == home_of(self.phase),
    {
        match self.phase {
            Phase::Probing(h) => h,
            Phase::Fetching(h) => h,
            Phase::Naming(h) => h,
            Phase::Loading(h) => h,
            _ => Home::AppData,
        }
    }

    fn finish(&mut self, loaded: bool, r: Result<(), String>) -> (a: Action)
        ensures
            *final(self) == finished(loaded, session::outcome(r)).0,
            a@ == finished(loaded, session::outcome(r)).1,
    {
        self.loaded = loaded;
        self.phase = Phase::Idle;
        Action::Finish(r)
    }

    /// Says whether [`step`](ContextSlot::step) may take the event now.
    pub fn accepts(&self, event: &Event) -> (r: bool)
        ensures
            r == expects(*self, event@),
    {
        match event {
            Event::Wanted { .. } => true,
            Event::CheckoutProbed(_) => matches!(self.phase, Phase::ProbingCheckout),
            Event::Located(_) => matches!(self.phase, Phase::Locating),
            Event::DirCreated(_) => matches!(self.phase, Phase::CreatingDir),
            Event::Probed(_) => matches!(self.phase, Phase::Probing(_)),
            Event::Fetched(_) => matches!(self.phase, Phase::Fetching(_)),
            Event::Named(_) => matches!(self.phase, Phase::Naming(_)),
            Event::Loaded(_) => matches!(self.phase, Phase::Loading(_)),
        }
    }

    /// Takes the answer to the last action and gives the next.
    pub fn step(&mut self, event: Event) -> (a: Action)
        requires
            expects(*old(self), event@),
        ensures
            *final(self) == next(*old(self), event@).0,
            a@ == next(*old(self), event@).1,
    {
        let home: Home = self.home();
        let loaded: bool = self.loaded;
        match event {
            Event::Wanted { debug, wait } => if !matches!(self.phase, Phase::Idle) {
                if wait {
                    Action::Wait
                } else {
                    Action::Finish(Err("model not ready".to_owned()))
                }
            } else if loaded {
                self.finish(true, Ok(()))
            } else if debug {
                self.phase = Phase::ProbingCheckout;
                Action::ProbeCheckout
            } else {
                self.phase = Phase::Locating;
                Action::Locate
            },
            Event::CheckoutProbed(found) => if found {
                self.phase = Phase::Probing(Home::Checkout);
                Action::Probe(Home::Checkout)
            } else {
                self.phase = Phase::Locating;
                Action::Locate
            },
            Event::Located(Ok(())) => {
                self.phase = Phase::CreatingDir;
                Action::CreateDir
            },
            Event::Located(Err(m)) => self.finish(loaded, Err(m)),
            Event::DirCreated(Ok(())) => {
                self.phase = Phase::Probing(Home::AppData);
                Action::Probe(Home::AppData)
            },
            Event::DirCreated(Err(m)) => self.finish(loaded, Err(m)),
            Event::Probed(found) => if found {
                self.phase = Phase::Naming(home);
                Action::NamePath(home)
            } else {
                self.phase = Phase::Fetching(home);
                Action::Fetch(home)
            },
            Event::Fetched(Ok(())) => {
                self.phase = Phase::Naming(home);
                Action::NamePath(home)
            },
            Event::Fetched(Err(m)) => self.finish(loaded, Err(m)),
            Event::Named(is_text) => if is_text {
                self.phase = Phase::Loading(home);
                Action::Load(home)
            } else {
                self.finish(loaded, Err("invalid model path".to_owned()))
            },
            Event::Loaded(Ok(())) => self.finish(true, Ok(())),
            Event::Loaded(Err(m)) => self.finish(loaded, Err(m)),
        }
    }
}

/// State after a run of events.
pub open spec fn state_after(s: ContextSlot, events: Seq<EventView>) -> ContextSlot
    decreases events.len(),
{
    if events.len() == 0 {
        s
    } else {
        next(state_after(s, events.drop_last()), events.last()).0
    }
}

/// Every event of the run comes when it is expected.
pub open spec fn is_run(s: ContextSlot, events: Seq<EventView>) -> bool
    decreases events.len(),
{
    events.len() == 0 || (is_run(s, events.drop_last()) && expects(
        state_after(s, events.drop_last()),
        events.last(),
    ))
}

/// The action that the last event of a run leads to.
pub open spec fn last_action(s: ContextSlot, events: Seq<EventView>) -> ActionView
    recommends
        events.len() > 0,
{
    next(state_after(s, events.drop_last()), events.last()).1
}

/// An empty slot.
pub open spec fn empty_slot() -> ContextSlot {
    ContextSlot { loaded: false, phase: Phase::Idle }
}

/// The event says that the model's file is there.
pub open spec fn is_presence(e: EventView) -> bool {
    e == EventView::Probed(true) || (e matches EventView::Fetched(Ok(_)))
}

/// A model is loaded only from a file that is complete: the file was found to
/// exist or was fetched successfully, then its path was found to be text, and
/// in between there were only further requests.
pub proof fn loads_only_a_present_file(events: Seq<EventView>, h: Home)
    requires
        is_run(empty_slot(), events),
        events.len() > 0,
        last_action(empty_slot(), events) == ActionView::Load(h),
    ensures
        events.last() == EventView::Named(true),
        exists|i: int|
            0 <= i < events.len() - 1 && is_presence(#[trigger] events[i]) && forall|j: int|
                i < j < events.len() - 1 ==> (#[trigger] events[j]) is Wanted,
{
    let before = events.drop_last();
    let i = lemma_naming_origin(before);
    assert(events[i] == before[i]);
    assert forall|j: int| i < j < events.len() - 1 implies (#[trigger] events[j]) is Wanted by {
        assert(events[j] == before[j]);
    }
}

/// Finds the event that said that the file is there.
proof fn lemma_naming_origin(events: Seq<EventView>) -> (i: int)
    requires
        is_run(empty_slot(), events),
        state_after(empty_slot(), events).phase is Naming,
    ensures
        0 <= i < events.len(),
        is_presence(events[i]),
        forall|j: int| i < j < events.len() ==> (#[trigger] events[j]) is Wanted,
    decreases events.len(),
{
    let last = events.len() - 1;
    assert(events.last() == events[last]);
    if events.last() is Wanted {
        let before = events.drop_last();
        let i = lemma_naming_origin(before);
        assert(events[i] == before[i]);
        assert forall|j: int| i < j < events.len() implies (#[trigger] events[j]) is Wanted by {
            if j < last {
                assert(events[j] == before[j]);
            }
        }
        i
    } else {
        last
    }
}

/// A model is fetched only where its file was found missing.
pub proof fn fetches_only_a_missing_file(s: ContextSlot, e: EventView)
    requires
        expects(s, e),
        next(s, e).1 is Fetch,
    ensures
        e == EventView::Probed(false),
{
}

/// A model is loaded once and kept: after that no request does anything, and
/// none fails.
pub proof fn loaded_once_and_kept(before: Seq<EventView>, after: Seq<EventView>)
    requires
        is_run(empty_slot(), before),
        state_after(empty_slot(), before).loaded,
        is_run(state_after(empty_slot(), before), after),
    ensures
        state_after(state_after(empty_slot(), before), after) == state_after(empty_slot(), before),
        after.len() > 0 ==> (last_action(
            state_after(empty_slot(), before),
            after,
        ) matches ActionView::Finish(Ok(_))),
    decreases after.len(),
{
    lemma_loaded_is_idle(before);
    if after.len() > 0 {
        loaded_once_and_kept(before, after.drop_last());
    }
}

proof fn lemma_loaded_is_idle(events: Seq<EventView>)
    requires
        is_run(empty_slot(), events),
    ensures
        state_after(empty_slot(), events).loaded ==> state_after(empty_slot(), events).phase is Idle,
    decreases events.len(),
{
    if events.len() > 0 {
        lemma_loaded_is_idle(events.drop_last());
    }
}

/// While one caller gets the model ready, another that does not wait is
/// refused at once and one that waits is told to; neither disturbs the first.
pub proof fn busy_slot_turns_others_away(s: ContextSlot, debug: bool, wait: bool)
    requires
        !(s.phase is Idle),
    ensures
        expects(s, (EventView::Wanted { debug, wait })),
        next(s, (EventView::Wanted { debug, wait })).0 == s,
        wait ==> next(s, (EventView::Wanted { debug, wait })).1 is Wait,
        !wait ==> (next(s, (EventView::Wanted { debug, wait })).1 matches ActionView::Finish(Err(m))
            && m == "model not ready"@),
{
}

/// A request that is served and fails leaves the slot ready for another, and
/// never claims a model that was not loaded.
pub proof fn failure_can_be_retried(s: ContextSlot, e: EventView)
    requires
        expects(s, e),
        next(s, e).1 is Finish,
        e is Wanted ==> s.phase is Idle,
    ensures
        next(s, e).0.phase is Idle,
        next(s, e).1 matches ActionView::Finish(Err(_)) ==> next(s, e).0.loaded == s.loaded,
        next(s, e).1 matches ActionView::Finish(Ok(_)) ==> next(s, e).0.loaded,
{
}

/// Outside development the checkout is never looked at.
pub proof fn release_ignores_checkout(events: Seq<EventView>)
    requires
        is_run(empty_slot(), events),
        forall|i: int|
            0 <= i < events.len() ==> (#[trigger] events[i] matches EventView::Wanted { debug, .. }
                ==> !debug),
    ensures
        !(state_after(empty_slot(), events).phase is ProbingCheckout),
        home_of(state_after(empty_slot(), events).phase) is AppData,
    decreases events.len(),
{
    if events.len() > 0 {
        let before = events.drop_last();
        assert forall|i: int| 0 <= i < before.len() implies (
        #[trigger] before[i] matches EventView::Wanted { debug, .. } ==> !debug) by {
            assert(before[i] == events[i]);
        }
        assert(events.last() == events[events.len() - 1]);
        release_ignores_checkout(before);
    }
}

/// Whatever goes wrong while a model is got ready, the request ends with the
/// message of just that failure, and the slot can be asked again.
pub proof fn failures_are_passed_on(s: ContextSlot, m: Seq<char>)
    ensures
        next(s, EventView::Located(Err(m))) == (
            (ContextSlot { loaded: s.loaded, phase: Phase::Idle }),
            ActionView::Finish(Err::<(), Seq<char>>(m)),
        ),
        next(s, EventView::DirCreated(Err(m))) == (
            (ContextSlot { loaded: s.loaded, phase: Phase::Idle }),
            ActionView::Finish(Err::<(), Seq<char>>(m)),
        ),
        next(s, EventView::Fetched(Err(m))) == (
            (ContextSlot { loaded: s.loaded, phase: Phase::Idle }),
            ActionView::Finish(Err::<(), Seq<char>>(m)),
        ),
        next(s, EventView::Named(false)) == (
            (ContextSlot { loaded: s.loaded, phase: Phase::Idle }),
            ActionView::Finish(Err::<(), Seq<char>>("invalid model path"@)),
        ),
        next(s, EventView::Loaded(Err(m))) == (
            (ContextSlot { loaded: s.loaded, phase: Phase::Idle }),
            ActionView::Finish(Err::<(), Seq<char>>(m)),
        ),
{
}

/// A model that is not there yet is looked for in the checkout first, in
/// development alone, then in the application's data. In whichever home it
/// belongs it is fetched if its file is missing, and loaded from there; then it
/// is ready.
pub proof fn model_is_got_ready(s: ContextSlot, h: Home, debug: bool, wait: bool)
    requires
        s.phase is Idle,
    ensures
        s.loaded ==> (next(s, (EventView::Wanted { debug, wait })).1 matches ActionView::Finish(Ok(_))),
        !s.loaded && debug ==> next(s, (EventView::Wanted { debug, wait })).1 is ProbeCheckout,
        !s.loaded && !debug ==> next(s, (EventView::Wanted { debug, wait })).1 is Locate,
        next(s, EventView::CheckoutProbed(true)).1 == ActionView::Probe(Home::Checkout),
        next(s, EventView::CheckoutProbed(false)).1 is Locate,
        next(s, EventView::Located(Ok(()))).1 is CreateDir,
        next(s, EventView::DirCreated(Ok(()))).1 == ActionView::Probe(Home::AppData),
        ({
            let probing = ContextSlot { phase: Phase::Probing(h), ..s };
            let fetching = next(probing, EventView::Probed(false)).0;
            let found = next(probing, EventView::Probed(true)).0;
            let fetched = next(fetching, EventView::Fetched(Ok(()))).0;
            let loading = next(found, EventView::Named(true)).0;
            &&& next(probing, EventView::Probed(false)).1 == ActionView::Fetch(h)
            &&& next(probing, EventView::Probed(true)).1 == ActionView::NamePath(h)
            &&& next(fetching, EventView::Fetched(Ok(()))).1 == ActionView::NamePath(h)
            &&& next(found, EventView::Named(true)).1 == ActionView::Load(h)
            &&& next(fetched, EventView::Named(true)).1 == ActionView::Load(h)
            &&& next(loading, EventView::Loaded(Ok(()))).1 matches ActionView::Finish(Ok(_))
            &&& next(loading, EventView::Loaded(Ok(()))).0.loaded
        }),
{
}

/// Every answer to an action is expected, whatever it says.
pub proof fn answers_are_expected(s: ContextSlot, e: EventView, answer: EventView)
    requires
        expects(s, e),
        !(e is Wanted) || s.phase is Idle,
    ensures
        answer is Wanted ==> expects(s, answer),
        next(s, e).1 is ProbeCheckout && answer is CheckoutProbed ==> expects(next(s, e).0, answer),
        next(s, e).1 is Locate && answer is Located ==> expects(next(s, e).0, answer),
        next(s, e).1 is CreateDir && answer is DirCreated ==> expects(next(s, e).0, answer),
        next(s, e).1 is Probe && answer is Probed ==> expects(next(s, e).0, answer),
        next(s, e).1 is Fetch && answer is Fetched ==> expects(next(s, e).0, answer),
        next(s, e).1 is NamePath && answer is Named ==> expects(next(s, e).0, answer),
        next(s, e).1 is Load && answer is Loaded ==> expects(next(s, e).0, answer),
{
}

/// Events and actions are seen with all that they hold.
pub proof fn views_hold_everything(m: String, h: Home, debug: bool, wait: bool)
    ensures
        (Event::Wanted { debug, wait })@ == (EventView::Wanted { debug, wait }),
        Event::Located(Err(m))@ == EventView::Located(Err(m@)),
        Event::DirCreated(Err(m))@ == EventView::DirCreated(Err(m@)),
        Event::Fetched(Err(m))@ == EventView::Fetched(Err(m@)),
        Event::Loaded(Err(m))@ == EventView::Loaded(Err(m@)),
        Action::Probe(h)@ == ActionView::Probe(h),
        Action::Fetch(h)@ == ActionView::Fetch(h),
        Action::NamePath(h)@ == ActionView::NamePath(h),
        Action::Load(h)@ == ActionView::Load(h),
        Action::Finish(Err(m))@ == ActionView::Finish(Err(m@)),
{
}

} // verus!
