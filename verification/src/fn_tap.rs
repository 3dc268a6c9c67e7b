//! Detection of a double tap of the Fn (Globe) key.
//!
//! The key is visible only as a modifier flag in the session's event stream. A
//! listen-only event tap hands every event to [`TapContext::tap_callback`],
//! which answers with what to do about it. Times are nanoseconds on one
//! monotonic clock.
use vstd::prelude::*;

verus! {

/// Tap location: the session's event stream.
pub const SESSION_EVENT_TAP: u32 = 1;

/// Tap placement: ahead of the other taps.
pub const HEAD_INSERT_EVENT_TAP: u32 = 0;

/// Tap option: listen without changing events.
pub const EVENT_TAP_OPTION_LISTEN_ONLY: u32 = 1;

/// Event type: a modifier key changed.
pub const EVENT_FLAGS_CHANGED: u32 = 12;

/// Event type: the system disabled the tap because it was slow.
pub const EVENT_TAP_DISABLED_BY_TIMEOUT: u32 = 0xFFFF_FFFE;

/// Event type: the system disabled the tap on user input.
pub const EVENT_TAP_DISABLED_BY_USER_INPUT: u32 = 0xFFFF_FFFF;

/// Modifier flag of the Fn key.
pub const FLAG_SECONDARY_FN: u64 = 0x0080_0000;

/// Two presses closer together than this are a double tap (450 ms).
pub const DOUBLE_TAP_WINDOW: u64 = 450_000_000;

/// What to ask the system for when the tap is created.
#[derive(Clone, Copy, Debug, PartialEq, Eq)]
pub struct TapRequest {
    pub location: u32,
    pub placement: u32,
    pub options: u32,
    /// One bit for each event type of interest.
    pub mask: u64,
}

/// What follows from the attempt to create the tap.
#[derive(Debug, PartialEq, Eq)]
pub enum TapStart {
    /// The tap exists: serve it.
    Serve,
    /// There is no tap: log the message and leave the other triggers in place.
    Unavailable(String),
}

/// What the tap remembers between events.
#[derive(Clone, Copy, Debug, PartialEq, Eq)]
pub struct TapContext {
    /// Fn was down at the last change of modifiers.
    pub fn_down: bool,
    /// Time of the last press that may begin a double tap.
    pub last_press: Option<u64>,
    /// Handle of the tap, 0 while there is none.
    pub port: usize,
}

/// What to do about an event. The event itself always passes unchanged.
#[derive(Clone, Copy, Debug, PartialEq, Eq)]
pub enum TapAction {
    Pass,
    /// Enable the tap with this handle again.
    Rearm(usize),
    /// A double tap is complete.
    Trigger,
}

/// One event of the stream.
pub struct TapEvent {
    pub etype: u32,
    pub flags: u64,
    pub now: u64,
}

/// The event says that the system disabled the tap.
pub open spec fn is_disabling(etype: u32) -> bool {
    etype == EVENT_TAP_DISABLED_BY_TIMEOUT || etype == EVENT_TAP_DISABLED_BY_USER_INPUT
}

/// The flags say that Fn is down.
pub open spec fn has_fn(flags: u64) -> bool {
    flags & FLAG_SECONDARY_FN != 0
}

/// The event is the moment in which Fn goes down.
pub open spec fn is_press(ctx: TapContext, e: TapEvent) -> bool {
    e.etype == EVENT_FLAGS_CHANGED && has_fn(e.flags) && !ctx.fn_down
}

/// A press at `now` completes a double tap. A clock reading before the earlier
/// press counts as no time at all.
pub open spec fn completes(last_press: Option<u64>, now: u64) -> bool {
    last_press matches Some(t) && now - t < DOUBLE_TAP_WINDOW
}

/// State and action that follow an event.
pub open spec fn next(ctx: TapContext, e: TapEvent) -> (TapContext, TapAction) {
    if is_disabling(e.etype) {
        (
            ctx,
            if ctx.port != 0 {
                TapAction::Rearm(ctx.port)
            } else {
                TapAction::Pass
            },
        )
    } else if e.etype != EVENT_FLAGS_CHANGED {
        (ctx, TapAction::Pass)
    } else if !is_press(ctx, e) {
        (TapContext { fn_down: has_fn(e.flags), ..ctx }, TapAction::Pass)
    } else if completes(ctx.last_press, e.now) {
        (TapContext { fn_down: true, last_press: None, ..ctx }, TapAction::Trigger)
    } else {
        (TapContext { fn_down: true, last_press: Some(e.now), ..ctx }, TapAction::Pass)
    }
}

/// The tap to create: listen-only, at the head of the session's stream, for
/// modifier changes alone.
pub fn spawn() -> (r: TapRequest)
    ensures
        r == (TapRequest {
            location: SESSION_EVENT_TAP,
            placement: HEAD_INSERT_EVENT_TAP,
            options: EVENT_TAP_OPTION_LISTEN_ONLY,
            mask: 1u64 << 12u32,
        }),
{
    TapRequest {
        location: SESSION_EVENT_TAP,
        placement: HEAD_INSERT_EVENT_TAP,
        options: EVENT_TAP_OPTION_LISTEN_ONLY,
        mask: 1u64 << EVENT_FLAGS_CHANGED,
    }
}

impl TapContext {
    /// The state before the first event: key up, no press, no tap.
    pub fn new() -> (r: TapContext)
        ensures
            r == (TapContext { fn_down: false, last_press: None, port: 0 }),
    {
        TapContext { fn_down: false, last_press: None, port: 0 }
    }

    /// Takes the handle that the system gave, 0 if it refused.
    pub fn attach(&mut self, port: usize) -> (r: TapStart)
        ensures
            port == 0 ==> *final(self) == *old(self),
            port == 0 ==> (r matches TapStart::Unavailable(m) && m@
                == "[fn_tap] CGEventTapCreate returned null — grant Input Monitoring/Accessibility to enable the Fn double-tap. Ctrl+Shift+R still works."@),
            port != 0 ==> r is Serve,
            port != 0 ==> *final(self) == (TapContext { port, ..*old(self) }),
    {
        if port == 0 {
            return TapStart::Unavailable(
                "[fn_tap] CGEventTapCreate returned null — grant Input Monitoring/Accessibility to enable the Fn double-tap. Ctrl+Shift+R still works.".to_owned(),
            );
        }
        self.port = port;
        TapStart::Serve
    }

    /// Handles one event of the stream.
    pub fn tap_callback(&mut self, etype: u32, flags: u64, now: u64) -> (r: TapAction)
        ensures
            *final(self) == next(*old(self), (TapEvent { etype, flags, now })).0,
            r == next(*old(self), (TapEvent { etype, flags, now })).1,
    {
        if etype == EVENT_TAP_DISABLED_BY_TIMEOUT || etype == EVENT_TAP_DISABLED_BY_USER_INPUT {
            if self.port != 0 {
                return TapAction::Rearm(self.port);
            }
            return TapAction::Pass;
        }
        if etype == EVENT_FLAGS_CHANGED {
            let fn_now: bool = flags & FLAG_SECONDARY_FN != 0;
            let was_down: bool = self.fn_down;
            self.fn_down = fn_now;
            if fn_now && !was_down {
                let is_double: bool = match self.last_press {
                    Some(t) => now < t || now - t < DOUBLE_TAP_WINDOW,
                    None => false,
                };
                if is_double {
                    self.last_press = None;
                    return TapAction::Trigger;
                }
                self.last_press = Some(now);
            }
        }
        TapAction::Pass
    }
}

/// State after a run of events.
pub open spec fn state_after(ctx: TapContext, events: Seq<TapEvent>) -> TapContext
    decreases events.len(),
{
    if events.len() == 0 {
        ctx
    } else {
        next(state_after(ctx, events.drop_last()), events.last()).0
    }
}

/// Number of triggers in a run of events.
pub open spec fn triggers(ctx: TapContext, events: Seq<TapEvent>) -> nat
    decreases events.len(),
{
    if events.len() == 0 {
        0
    } else {
        let before = state_after(ctx, events.drop_last());
        triggers(ctx, events.drop_last()) + if next(before, events.last()).1 is Trigger {
            1nat
        } else {
            0
        }
    }
}

/// Number of times that Fn goes down in a run of events.
pub open spec fn presses(ctx: TapContext, events: Seq<TapEvent>) -> nat
    decreases events.len(),
{
    if events.len() == 0 {
        0
    } else {
        let before = state_after(ctx, events.drop_last());
        presses(ctx, events.drop_last()) + if is_press(before, events.last()) {
            1nat
        } else {
            0
        }
    }
}

/// A double tap fires: with the key up and no press pending, a press, a
/// release and a press within the window trigger, on the second press and not
/// before, and leave no press pending.
pub proof fn double_tap_triggers(ctx: TapContext, down: TapEvent, release: TapEvent, again: TapEvent)
    requires
        ctx.last_press is None,
        is_press(ctx, down),
        release.etype == EVENT_FLAGS_CHANGED,
        !has_fn(release.flags),
        again.etype == EVENT_FLAGS_CHANGED,
        has_fn(again.flags),
        again.now - down.now < DOUBLE_TAP_WINDOW,
    ensures
        next(ctx, down).1 is Pass,
        next(next(ctx, down).0, release).1 is Pass,
        next(next(next(ctx, down).0, release).0, again).1 is Trigger,
        next(next(next(ctx, down).0, release).0, again).0.last_press is None,
{
}

/// Presses further apart do not fire; the later one may begin a double tap.
pub proof fn slow_taps_do_not_trigger(
    ctx: TapContext,
    down: TapEvent,
    release: TapEvent,
    again: TapEvent,
)
    requires
        ctx.last_press is None,
        is_press(ctx, down),
        release.etype == EVENT_FLAGS_CHANGED,
        !has_fn(release.flags),
        again.etype == EVENT_FLAGS_CHANGED,
        has_fn(again.flags),
        again.now - down.now >= DOUBLE_TAP_WINDOW,
    ensures
        next(next(next(ctx, down).0, release).0, again).1 is Pass,
        next(next(next(ctx, down).0, release).0, again).0.last_press == Some(again.now),
{
}

/// Only the moment in which Fn goes down can trigger: a held key, a release and
/// events of other kinds never do.
pub proof fn only_a_press_triggers(ctx: TapContext, e: TapEvent)
    ensures
        next(ctx, e).1 is Trigger ==> is_press(ctx, e) && completes(ctx.last_press, e.now),
        !is_press(ctx, e) ==> next(ctx, e).0.last_press == ctx.last_press,
{
}

/// Events that are no modifier changes leave the state alone, and a disabled
/// tap is enabled again wherever there is one.
pub proof fn other_events_keep_state(ctx: TapContext, e: TapEvent)
    requires
        e.etype != EVENT_FLAGS_CHANGED,
    ensures
        next(ctx, e).0 == ctx,
        next(ctx, e).1 == TapAction::Rearm(ctx.port) <==> is_disabling(e.etype) && ctx.port != 0,
{
}

/// Every trigger uses up two presses of its own, in any run of events: three
/// quick taps fire once, not twice.
pub proof fn each_trigger_takes_two_presses(events: Seq<TapEvent>)
    ensures
        2 * triggers(TapContext { fn_down: false, last_press: None, port: 0 }, events) <= presses(
            TapContext { fn_down: false, last_press: None, port: 0 },
            events,
        ),
{
    lemma_press_budget(TapContext { fn_down: false, last_press: None, port: 0 }, events);
}

proof fn lemma_press_budget(ctx: TapContext, events: Seq<TapEvent>)
    requires
        ctx.last_press is None,
    ensures
        2 * triggers(ctx, events) + (if state_after(ctx, events).last_press is Some {
            1int
        } else {
            0
        }) <= presses(ctx, events),
    decreases events.len(),
{
    if events.len() > 0 {
        lemma_press_budget(ctx, events.drop_last());
    }
}

/// With the key up and a press pending, the next press triggers exactly if it
/// comes less than 450 ms later, whatever other modifiers are down; then nothing
/// is pending, and otherwise the new press is.
pub proof fn second_press_decides(ctx: TapContext, t: u64, flags: u64, now: u64)
    requires
        !ctx.fn_down,
        ctx.last_press == Some(t),
        flags & 0x80_0000 != 0,
    ensures
        ({
            let (after, action) = next(ctx, TapEvent { etype: 12, flags, now });
            &&& action is Trigger <==> now - t < 450_000_000
            &&& action is Pass <==> now - t >= 450_000_000
            &&& now - t < 450_000_000 ==> after.last_press is None
            &&& now - t >= 450_000_000 ==> after.last_press == Some(now)
            &&& after.fn_down
            &&& after.port == ctx.port
        }),
{
}

/// With the key up and no press pending, a press never triggers and is pending
/// from then on, whatever other modifiers are down.
pub proof fn first_press_is_pending(ctx: TapContext, flags: u64, now: u64)
    requires
        !ctx.fn_down,
        ctx.last_press is None,
        flags & 0x80_0000 != 0,
    ensures
        next(ctx, (TapEvent { etype: 12, flags, now })) == (
            (TapContext { fn_down: true, last_press: Some(now), port: ctx.port }),
            TapAction::Pass,
        ),
{
}

/// A release, and a change of other modifiers, only records whether Fn is down.
pub proof fn other_changes_only_record_the_key(ctx: TapContext, flags: u64, now: u64)
    requires
        flags & 0x80_0000 == 0 || ctx.fn_down,
    ensures
        next(ctx, (TapEvent { etype: 12, flags, now })) == (
            (TapContext { fn_down: flags & 0x80_0000 != 0, ..ctx }),
            TapAction::Pass,
        ),
{
}

/// An event that is no change of modifiers leaves the state alone. The two that
/// say that the tap is disabled enable it again, where there is a tap.
pub proof fn disabled_tap_is_enabled_again(ctx: TapContext, etype: u32, flags: u64, now: u64)
    requires
        etype != 12,
    ensures
        next(ctx, (TapEvent { etype, flags, now })).0 == ctx,
        etype >= 0xFFFF_FFFE && ctx.port != 0 ==> next(ctx, (TapEvent { etype, flags, now })).1
            == TapAction::Rearm(ctx.port),
        etype < 0xFFFF_FFFE || ctx.port == 0 ==> next(ctx, (TapEvent { etype, flags, now })).1
            is Pass,
{
}

} // verus!
