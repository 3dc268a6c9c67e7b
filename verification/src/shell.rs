//! The agent's windows, menu and triggers.
use crate::float;
use crate::float::{Float, DOUBLE};
use crate::paste;
use vstd::prelude::*;

verus! {

/// Distance of the bar from the bottom of the screen, in points.
pub const MARGIN_POINTS: u64 = 96;

/// Pause between showing the bar and the trigger event, in milliseconds.
pub const TRIGGER_DELAY_MS: u64 = 90;

/// A screen: the place of its top left corner on the desktop and its size, in
/// pixels, and the bit pattern of its double-precision pixels per point.
#[derive(Clone, Copy, Debug, PartialEq, Eq)]
pub struct Monitor {
    pub x: i32,
    pub y: i32,
    pub width: u32,
    pub height: u32,
    pub scale_bits: u64,
}

/// A size in pixels.
#[derive(Clone, Copy, Debug, PartialEq, Eq)]
pub struct Size {
    pub width: u32,
    pub height: u32,
}

/// The number that a double-precision bit pattern stands for.
pub enum Number {
    Nan,
    Infinite { negative: bool },
    Finite { negative: bool, magnitude: float::Dyadic },
}

/// Reads a double-precision bit pattern: a sign bit, eleven bits of exponent
/// biased by 1023, and 52 bits of mantissa.
pub open spec fn number_of(bits: u64) -> Number {
    let negative = bits >= 0x8000_0000_0000_0000;
    let field = (bits / 0x10_0000_0000_0000) % 2048;
    let tail = bits % 0x10_0000_0000_0000;
    if field == 2047 {
        if tail == 0 {
            Number::Infinite { negative }
        } else {
            Number::Nan
        }
    } else if field == 0 {
        Number::Finite {
            negative,
            magnitude: float::Dyadic { mant: tail as nat, exp: -1074 },
        }
    } else {
        Number::Finite {
            negative,
            magnitude: float::Dyadic {
                mant: (tail + 0x10_0000_0000_0000) as nat,
                exp: field - 1075,
            },
        }
    }
}

/// `n`, with its sign, held to the range of an `i32`.
pub open spec fn clamped(negative: bool, n: nat) -> int {
    if negative {
        if n > 0x8000_0000 {
            i32::MIN as int
        } else {
            -n
        }
    } else {
        if n > i32::MAX {
            i32::MAX as int
        } else {
            n as int
        }
    }
}

/// The margin below the bar in pixels: 96 times the scale in double precision,
/// cut to an integer and held to the range of an `i32`; 0 for no number.
pub open spec fn margin_of(scale_bits: u64) -> int {
    match number_of(scale_bits) {
        Number::Nan => 0,
        Number::Infinite { negative } => if negative {
            i32::MIN as int
        } else {
            i32::MAX as int
        },
        Number::Finite { negative, magnitude } => clamped(
            negative,
            float::floor(float::product(53, magnitude, float::Dyadic { mant: 96, exp: 0 })),
        ),
    }
}

/// The margin below the bar in pixels.
pub fn margin(scale_bits: u64) -> (r: i32)
    ensures
        r == margin_of(scale_bits),
{
    let negative: bool = scale_bits >= 0x8000_0000_0000_0000;
    let field: u64 = (scale_bits / 0x10_0000_0000_0000) % 2048;
    let tail: u64 = scale_bits % 0x10_0000_0000_0000;
    if field == 2047 {
        return if tail != 0 {
            0
        } else if negative {
            i32::MIN
        } else {
            i32::MAX
        };
    }
    let scale: Float = if field == 0 {
        Float { mant: tail, exp: -1074 }
    } else {
        Float { mant: tail + 0x10_0000_0000_0000, exp: field as i32 - 1075 }
    };
    let points: Float = Float { mant: MARGIN_POINTS, exp: 0 };
    let n: u64 = float::truncate(float::multiply(DOUBLE, scale, points));
    if negative {
        if n >= 0x8000_0000 {
            i32::MIN
        } else {
            -(n as i32)
        }
    } else {
        if n > i32::MAX as u64 {
            i32::MAX
        } else {
            n as i32
        }
    }
}

/// The screen to place the bar on: the one it is on, else the primary one.
pub open spec fn screen_of(current: Option<Monitor>, primary: Option<Monitor>) -> Option<Monitor> {
    match current {
        Some(m) => Some(m),
        None => primary,
    }
}

/// The sums and differences that place the bar can be computed in 32 bits.
pub open spec fn fits(m: Monitor, w: Size) -> bool {
    let dx = m.width as i32 - w.width as i32;
    let dy = m.height as i32 - w.height as i32;
    &&& i32::MIN <= dx <= i32::MAX
    &&& i32::MIN <= dy <= i32::MAX
    &&& i32::MIN <= dy - margin_of(m.scale_bits) <= i32::MAX
    &&& place(m, w).0 <= i32::MAX
    &&& place(m, w).1 <= i32::MAX
}

/// Says whether [`position_bottom_center`] can place a bar of this size on this
/// screen.
pub fn can_place(m: Monitor, w: Size) -> (r: bool)
    ensures
        r == fits(m, w),
{
    let dx: i64 = m.width as i32 as i64 - w.width as i32 as i64;
    let dy: i64 = m.height as i32 as i64 - w.height as i32 as i64;
    let up: i64 = dy - margin(m.scale_bits) as i64;
    let low: i64 = i32::MIN as i64;
    let high: i64 = i32::MAX as i64;
    let x: i64 = m.x as i64 + if dx < 0 {
        0
    } else {
        dx / 2
    };
    let y: i64 = m.y as i64 + if up < 0 {
        0
    } else {
        up
    };
    low <= dx && dx <= high && low <= dy && dy <= high && low <= up && up <= high && x <= high && y
        <= high
}

/// `n`, but not below 0.
pub open spec fn not_below_zero(n: int) -> int {
    if n < 0 {
        0
    } else {
        n
    }
}

/// The place of the bar's top left corner on the desktop: on its screen it is
/// centred, the margin above the bottom edge, and never left of or above the
/// screen.
pub open spec fn place(m: Monitor, w: Size) -> (int, int) {
    let dx = m.width as i32 - w.width as i32;
    let dy = m.height as i32 - w.height as i32;
    (
        m.x + not_below_zero(dx) / 2,
        m.y + not_below_zero(dy - margin_of(m.scale_bits)),
    )
}

/// Where to park the bar, if its screen and its size are known.
pub fn position_bottom_center(
    current: Option<Monitor>,
    primary: Option<Monitor>,
    outer: Option<Size>,
) -> (r: Option<(i32, i32)>)
    requires
        screen_of(current, primary) matches Some(m) ==> outer matches Some(w) ==> fits(m, w),
    ensures
        r is Some <==> screen_of(current, primary) is Some && outer is Some,
        r matches Some((x, y)) ==> (x as int, y as int) == place(
            screen_of(current, primary)->0,
            outer->0,
        ),
{
    let screen: Option<Monitor> = match current {
        Some(m) => Some(m),
        None => primary,
    };
    match (screen, outer) {
        (Some(m), Some(w)) => {
            let dx: i32 = m.width as i32 - w.width as i32;
            let dy: i32 = m.height as i32 - w.height as i32;
            let x: i32 = if dx < 0 {
                0
            } else {
                dx / 2
            };
            let up: i32 = dy - margin(m.scale_bits);
            let y: i32 = if up < 0 {
                0
            } else {
                up
            };
            Some((m.x + x, m.y + y))
        },
        _ => None,
    }
}

/// A bar that fits on its screen lies on it whole, wherever on the desktop that
/// is; it is centred to the pixel and stands exactly the margin above the bottom
/// edge.
pub proof fn bar_is_centred_above_the_margin(m: Monitor, w: Size)
    requires
        w.width <= m.width <= i32::MAX,
        w.height <= m.height <= i32::MAX,
        0 <= margin_of(m.scale_bits) <= m.height - w.height,
    ensures
        ({
            let (x, y) = place(m, w);
            let left = x - m.x;
            let right = (m.x + m.width) - (x + w.width);
            let top = y - m.y;
            let bottom = (m.y + m.height) - (y + w.height);
            &&& left >= 0 && right >= 0 && top >= 0
            &&& right == left || right == left + 1
            &&& bottom == margin_of(m.scale_bits)
        }),
{
}

/// The bar's corner is never off the top or the left edge of its screen.
pub proof fn bar_starts_on_screen(m: Monitor, w: Size)
    ensures
        place(m, w).0 >= m.x,
        place(m, w).1 >= m.y,
{
}

/// Something to do with a window.
#[derive(Clone, Copy, Debug, PartialEq, Eq)]
pub enum WindowStep {
    /// Park it near the bottom of its screen.
    Park,
    /// Centre it.
    Center,
    Show,
    Focus,
    Hide,
}

/// What a trigger leads to.
#[derive(Debug, PartialEq, Eq)]
pub struct Trigger {
    /// The application to paste into from now on.
    pub target: Option<i32>,
    /// What to do with the bar, if it exists.
    pub bar: Vec<WindowStep>,
    /// After so many milliseconds, tell the user interface to toggle.
    pub toggle_after_ms: u64,
}

/// Handles a trigger: remembers the application in front, shows the bar, and
/// lets the user interface toggle once the bar can listen.
pub fn fire_trigger(target: Option<i32>, frontmost: Option<i32>, me: u32) -> (r: Trigger)
    ensures
        r.target == paste::target_after(target, frontmost, me),
        r.bar@ == seq![WindowStep::Park, WindowStep::Show, WindowStep::Focus],
        r.toggle_after_ms == TRIGGER_DELAY_MS,
{
    let mut bar: Vec<WindowStep> = Vec::new();
    bar.push(WindowStep::Park);
    bar.push(WindowStep::Show);
    bar.push(WindowStep::Focus);
    Trigger {
        target: paste::remember_target(target, frontmost, me),
        bar,
        toggle_after_ms: TRIGGER_DELAY_MS,
    }
}

/// The steps that show Preferences.
pub open spec fn showing() -> Seq<WindowStep> {
    seq![WindowStep::Center, WindowStep::Show, WindowStep::Focus]
}

/// The steps in place of closing Preferences.
pub open spec fn closing() -> Seq<WindowStep> {
    seq![WindowStep::Hide]
}

/// What to do with the Preferences window, if it exists, to show it.
pub fn show_preferences() -> (r: Vec<WindowStep>)
    ensures
        r@ == showing(),
{
    let mut steps: Vec<WindowStep> = Vec::new();
    steps.push(WindowStep::Center);
    steps.push(WindowStep::Show);
    steps.push(WindowStep::Focus);
    steps
}

/// What to do with the Preferences window when something happens to it. A
/// request to close it is held back, and these are the steps in its place; all
/// other events take their course.
pub fn on_preferences_event(close_requested: bool) -> (r: Option<Vec<WindowStep>>)
    ensures
        r is Some <==> close_requested,
        r matches Some(steps) ==> steps@ == closing(),
{
    if close_requested {
        let mut steps: Vec<WindowStep> = Vec::new();
        steps.push(WindowStep::Hide);
        Some(steps)
    } else {
        None
    }
}

/// Whether a window is shown after some steps.
pub open spec fn shown_after(shown: bool, steps: Seq<WindowStep>) -> bool
    decreases steps.len(),
{
    if steps.len() == 0 {
        shown
    } else {
        match steps.last() {
            WindowStep::Show => true,
            WindowStep::Hide => false,
            _ => shown_after(shown, steps.drop_last()),
        }
    }
}

/// Closing Preferences hides the window, and showing Preferences brings it back:
/// no step destroys it.
pub proof fn closed_preferences_come_back(shown: bool)
    ensures
        !shown_after(shown, closing()),
        shown_after(shown_after(shown, closing()), showing()),
{
    assert(showing().drop_last().last() is Show);
    reveal_with_fuel(shown_after, 2);
}

/// An entry of the tray's menu.
#[derive(Debug, PartialEq, Eq)]
pub enum MenuEntry {
    Item { id: String, label: String, accelerator: Option<String> },
    Separator,
}

/// What a menu entry does.
#[derive(Clone, Copy, Debug, PartialEq, Eq)]
pub enum Command {
    /// Fire a trigger.
    Dictate,
    /// Show the Preferences window.
    Preferences,
    /// Leave with this code.
    Exit(i32),
    /// Nothing.
    Ignore,
}

/// The command of a menu entry.
pub open spec fn command_of(id: Seq<char>) -> Command {
    if id == "start"@ {
        Command::Dictate
    } else if id == "prefs"@ {
        Command::Preferences
    } else if id == "quit"@ {
        Command::Exit(0)
    } else {
        Command::Ignore
    }
}

/// An entry has this identifier, label and shortcut.
pub open spec fn is_item(
    e: MenuEntry,
    id: Seq<char>,
    label: Seq<char>,
    accelerator: Option<Seq<char>>,
) -> bool {
    e matches MenuEntry::Item { id: i, label: l, accelerator: a } && i@ == id && l@ == label && (
    match a {
        Some(k) => accelerator == Some(k@),
        None => accelerator is None,
    })
}

/// The entries are those of the tray's menu.
pub open spec fn is_menu(m: Seq<MenuEntry>) -> bool {
    &&& m.len() == 4
    &&& is_item(m[0], "start"@, "Start dictation"@, None)
    &&& is_item(m[1], "prefs"@, "Preferences…"@, None)
    &&& m[2] is Separator
    &&& is_item(m[3], "quit"@, "Quit Rigg Voice"@, Some("Cmd+Q"@))
}

/// The tray's menu, from top to bottom.
pub fn menu() -> (r: Vec<MenuEntry>)
    ensures
        is_menu(r@),
{
    let mut entries: Vec<MenuEntry> = Vec::new();
    entries.push(
        MenuEntry::Item {
            id: "start".to_owned(),
            label: "Start dictation".to_owned(),
            accelerator: None,
        },
    );
    entries.push(
        MenuEntry::Item {
            id: "prefs".to_owned(),
            label: "Preferences…".to_owned(),
            accelerator: None,
        },
    );
    entries.push(MenuEntry::Separator);
    entries.push(
        MenuEntry::Item {
            id: "quit".to_owned(),
            label: "Quit Rigg Voice".to_owned(),
            accelerator: Some("Cmd+Q".to_owned()),
        },
    );
    entries
}

/// The command of the menu entry with this identifier.
pub fn on_menu(id: &str) -> (r: Command)
    ensures
        r == command_of(id@),
{
    let id: String = id.to_owned();
    if id == "start".to_owned() {
        Command::Dictate
    } else if id == "prefs".to_owned() {
        Command::Preferences
    } else if id == "quit".to_owned() {
        Command::Exit(0)
    } else {
        Command::Ignore
    }
}

/// The code that the agent leaves with when it is told to quit.
pub fn quit_app() -> (code: i32)
    ensures
        code == 0,
{
    0
}

/// A request to leave with this code is held back.
pub open spec fn is_held_back(code: Option<i32>) -> bool {
    code is None
}

/// Says whether to stay when leaving is requested. Closing the last window asks
/// without a code, and the agent stays; quitting gives a code.
pub fn stays_on_exit(code: Option<i32>) -> (r: bool)
    ensures
        r == is_held_back(code),
{
    code.is_none()
}

/// Says whether the global shortcut fires a trigger: when it is pressed, not
/// when it is released, and only this shortcut.
pub fn on_shortcut(pressed: bool, is_ours: bool) -> (r: bool)
    ensures
        r == (pressed && is_ours),
{
    pressed && is_ours
}

/// Every item of the menu does something, no two do the same, and an item that
/// leaves is not held back.
pub proof fn menu_commands_are_distinct(m: Seq<MenuEntry>, i: int, j: int)
    requires
        is_menu(m),
        0 <= i < j < m.len(),
        m[i] is Item,
        m[j] is Item,
    ensures
        !(command_of(m[i]->id@) is Ignore),
        !(command_of(m[j]->id@) is Ignore),
        command_of(m[i]->id@) != command_of(m[j]->id@),
        command_of(m[j]->id@) matches Command::Exit(code) ==> !is_held_back(Some(code)),
{
    reveal_strlit("start");
    reveal_strlit("prefs");
    reveal_strlit("quit");
    assert("prefs"@[0] != "start"@[0]);
    assert("quit"@[0] != "start"@[0]);
    assert("quit"@[0] != "prefs"@[0]);
}

/// What the agent runs on and finds at launch.
#[derive(Clone, Copy, Debug, PartialEq, Eq)]
pub struct Host {
    pub macos: bool,
    pub desktop: bool,
    pub has_preferences: bool,
    pub has_bar: bool,
}

/// A step of the launch.
#[derive(Clone, Copy, Debug, PartialEq, Eq)]
pub enum LaunchStep {
    /// Leave the Dock and the menu bar.
    BecomeAccessory,
    /// Put the icon and its menu into the tray.
    BuildTray,
    /// Let closing the Preferences window hide it.
    HidePreferencesOnClose,
    /// Give the bar its glass.
    ApplyGlass,
    /// Park the bar.
    ParkBar,
    /// Register the global shortcut.
    RegisterShortcut,
    /// Listen for the double tap.
    ListenForDoubleTap,
    /// Load both models in the background.
    WarmModels,
}

/// The launch ends where this step fails.
pub open spec fn is_vital(step: LaunchStep) -> bool {
    step is BuildTray || step is RegisterShortcut
}

/// Says whether the launch ends where this step fails. Without the tray or the
/// shortcut there is no agent; it goes on without anything else.
pub fn ends_launch(step: LaunchStep) -> (r: bool)
    ensures
        r == is_vital(step),
{
    matches!(step, LaunchStep::BuildTray) || matches!(step, LaunchStep::RegisterShortcut)
}

/// The step belongs to the launch on this host.
pub open spec fn applies(host: Host, step: LaunchStep) -> bool {
    match step {
        LaunchStep::BecomeAccessory => host.macos,
        LaunchStep::BuildTray => true,
        LaunchStep::HidePreferencesOnClose => host.has_preferences,
        LaunchStep::ApplyGlass => host.has_bar && host.macos,
        LaunchStep::ParkBar => host.has_bar,
        LaunchStep::RegisterShortcut => host.desktop,
        LaunchStep::ListenForDoubleTap => host.macos,
        LaunchStep::WarmModels => true,
    }
}

/// All steps, in order.
pub open spec fn all_steps() -> Seq<LaunchStep> {
    seq![
        LaunchStep::BecomeAccessory,
        LaunchStep::BuildTray,
        LaunchStep::HidePreferencesOnClose,
        LaunchStep::ApplyGlass,
        LaunchStep::ParkBar,
        LaunchStep::RegisterShortcut,
        LaunchStep::ListenForDoubleTap,
        LaunchStep::WarmModels,
    ]
}

/// The steps of `steps` that apply, in order.
pub open spec fn applying(host: Host, steps: Seq<LaunchStep>) -> Seq<LaunchStep>
    decreases steps.len(),
{
    if steps.len() == 0 {
        steps
    } else {
        let before = applying(host, steps.drop_last());
        if applies(host, steps.last()) {
            before.push(steps.last())
        } else {
            before
        }
    }
}

fn is_applying(host: Host, step: LaunchStep) -> (r: bool)
    ensures
        r == applies(host, step),
{
    match step {
        LaunchStep::BecomeAccessory => host.macos,
        LaunchStep::BuildTray => true,
        LaunchStep::HidePreferencesOnClose => host.has_preferences,
        LaunchStep::ApplyGlass => host.has_bar && host.macos,
        LaunchStep::ParkBar => host.has_bar,
        LaunchStep::RegisterShortcut => host.desktop,
        LaunchStep::ListenForDoubleTap => host.macos,
        LaunchStep::WarmModels => true,
    }
}

/// The steps that launch the agent on a host, in order.
pub fn run(host: Host) -> (r: Vec<LaunchStep>)
    ensures
        r@ == applying(host, all_steps()),
{
    let all: [LaunchStep; 8] = [
        LaunchStep::BecomeAccessory,
        LaunchStep::BuildTray,
        LaunchStep::HidePreferencesOnClose,
        LaunchStep::ApplyGlass,
        LaunchStep::ParkBar,
        LaunchStep::RegisterShortcut,
        LaunchStep::ListenForDoubleTap,
        LaunchStep::WarmModels,
    ];
    assert(all@ =~= all_steps());
    let mut steps: Vec<LaunchStep> = Vec::new();
    let mut i: usize = 0;
    while i < 8
        invariant
            i <= 8,
            all@ == all_steps(),
            steps@ == applying(host, all_steps().take(i as int)),
        decreases 8 - i,
    {
        assert(all_steps().take(i + 1).drop_last() =~= all_steps().take(i as int));
        assert(all_steps().take(i + 1).last() == all@[i as int]);
        if is_applying(host, all[i]) {
            steps.push(all[i]);
        }
        i = i + 1;
    }
    assert(all_steps().take(8) =~= all_steps());
    steps
}

/// On any screen and for any size of the bar, as far as 32 bits go: the bar is
/// centred across where it is not wider than the screen, and else starts at the
/// screen's left edge; it ends the margin above the screen's bottom where there
/// is room for that, and else starts at the screen's top. The place is relative
/// to the screen's own corner.
pub proof fn bar_is_placed_on_its_screen(m: Monitor, w: Size)
    requires
        m.width <= i32::MAX,
        m.height <= i32::MAX,
        w.width <= i32::MAX,
        w.height <= i32::MAX,
    ensures
        ({
            let (x, y) = place(m, w);
            let room = m.height - w.height - margin_of(m.scale_bits);
            &&& w.width <= m.width ==> 0 <= (m.width - w.width) - 2 * (x - m.x) <= 1
            &&& w.width > m.width ==> x == m.x
            &&& room >= 0 ==> y - m.y == room
            &&& room < 0 ==> y == m.y
            &&& i32::MIN <= room <= i32::MAX && x <= i32::MAX && y <= i32::MAX ==> fits(m, w)
        }),
{
}

/// The bar is placed on the screen it is on, whichever that is; only where that
/// is not known, on the primary one.
pub proof fn own_screen_comes_first(m: Monitor, primary: Option<Monitor>)
    ensures
        screen_of(Some(m), primary) == Some(m),
        screen_of(None, primary) == primary,
{
}

/// Each menu command has one identifier, and any other identifier does nothing.
pub proof fn commands_have_one_identifier(id: Seq<char>)
    ensures
        command_of(id) is Dictate <==> id == "start"@,
        command_of(id) is Preferences <==> id == "prefs"@,
        command_of(id) is Exit <==> id == "quit"@,
        command_of(id) matches Command::Exit(code) ==> code == 0,
{
    reveal_strlit("start");
    reveal_strlit("prefs");
    reveal_strlit("quit");
    assert("prefs"@[0] != "start"@[0]);
    assert("quit"@[0] != "start"@[0]);
    assert("quit"@[0] != "prefs"@[0]);
}

/// Leaving with any code is let through, and only leaving without one, as
/// closing the last window asks for, is held back.
pub proof fn only_leaving_without_a_code_is_held_back(code: i32)
    ensures
        !is_held_back(Some(code)),
        is_held_back(None),
{
}

/// `step` alone where it is wanted, else nothing.
pub open spec fn only_if(wanted: bool, step: LaunchStep) -> Seq<LaunchStep> {
    if wanted {
        seq![step]
    } else {
        Seq::empty()
    }
}

/// What a launch consists of, on any host: leaving the Dock first, on a Mac; the
/// tray; Preferences and then the bar, each where there is such a window, the
/// bar with glass on a Mac; the shortcut on a desktop; the double tap on a Mac;
/// and the models last.
pub proof fn launch_is_complete_and_in_order(host: Host)
    ensures
        applying(host, all_steps()) == only_if(host.macos, LaunchStep::BecomeAccessory)
            + seq![LaunchStep::BuildTray] + only_if(
            host.has_preferences,
            LaunchStep::HidePreferencesOnClose,
        ) + only_if(host.has_bar && host.macos, LaunchStep::ApplyGlass) + only_if(
            host.has_bar,
            LaunchStep::ParkBar,
        ) + only_if(host.desktop, LaunchStep::RegisterShortcut) + only_if(
            host.macos,
            LaunchStep::ListenForDoubleTap,
        ) + seq![LaunchStep::WarmModels],
{
    let s = all_steps();
    assert forall|n: int| 0 < n <= 8 implies #[trigger] s.take(n).drop_last() == s.take(n - 1)
        && s.take(n).last() == s[n - 1] by {
        assert(s.take(n).drop_last() =~= s.take(n - 1));
    }
    let a0 = only_if(host.macos, LaunchStep::BecomeAccessory);
    let a1 = a0 + seq![LaunchStep::BuildTray];
    let a2 = a1 + only_if(host.has_preferences, LaunchStep::HidePreferencesOnClose);
    let a3 = a2 + only_if(host.has_bar && host.macos, LaunchStep::ApplyGlass);
    let a4 = a3 + only_if(host.has_bar, LaunchStep::ParkBar);
    let a5 = a4 + only_if(host.desktop, LaunchStep::RegisterShortcut);
    let a6 = a5 + only_if(host.macos, LaunchStep::ListenForDoubleTap);
    let a7 = a6 + seq![LaunchStep::WarmModels];
    assert(s.take(0).len() == 0);
    assert(applying(host, s.take(0)) =~= Seq::empty());
    assert(s.take(1).drop_last() == s.take(0));
    assert(applying(host, s.take(1)) =~= a0);
    assert(s.take(2).drop_last() == s.take(1));
    assert(applying(host, s.take(2)) =~= a1);
    assert(s.take(3).drop_last() == s.take(2));
    assert(applying(host, s.take(3)) =~= a2);
    assert(s.take(4).drop_last() == s.take(3));
    assert(applying(host, s.take(4)) =~= a3);
    assert(s.take(5).drop_last() == s.take(4));
    assert(applying(host, s.take(5)) =~= a4);
    assert(s.take(6).drop_last() == s.take(5));
    assert(applying(host, s.take(6)) =~= a5);
    assert(s.take(7).drop_last() == s.take(6));
    assert(applying(host, s.take(7)) =~= a6);
    assert(s.take(8).drop_last() == s.take(7));
    assert(applying(host, s.take(8)) =~= a7);
    assert(s.take(8) =~= s);
}

/// Building the tray and registering the shortcut are all that a launch cannot
/// do without.
pub proof fn tray_and_shortcut_are_vital(step: LaunchStep)
    ensures
        is_vital(step) <==> step == LaunchStep::BuildTray || step == LaunchStep::RegisterShortcut,
{
}

/// On a screen with a positive scale the margin is 96 times the scale, cut to an
/// integer and right to one part in `2^53`, unless an `i32` cannot hold that; a
/// negative scale gives the negative of that. The scale is read from its bits as
/// double precision has them.
pub proof fn margin_is_96_points(scale_bits: u64)
    requires
        scale_bits < 0x8000_0000_0000_0000,
        1 <= scale_bits / 0x10_0000_0000_0000 <= 2046,
    ensures
        ({
            let scale = float::Dyadic {
                mant: (scale_bits % 0x10_0000_0000_0000 + 0x10_0000_0000_0000) as nat,
                exp: scale_bits / 0x10_0000_0000_0000 - 1075,
            };
            let (n, d) = (float::top(scale), float::bottom(scale));
            let m = margin_of(scale_bits);
            &&& 0 <= m <= i32::MAX
            &&& m * d * 0x1f_ffff_ffff_ffff <= 96 * n * 0x20_0000_0000_0000
            &&& m == i32::MAX || 96 * n * 0x1f_ffff_ffff_ffff < (m + 1) * d * 0x20_0000_0000_0000
            &&& m < i32::MAX ==> margin_of((scale_bits + 0x8000_0000_0000_0000) as u64) == -m
        }),
{
    float::lemma_powers();
    let scale = float::Dyadic {
        mant: (scale_bits % 0x10_0000_0000_0000 + 0x10_0000_0000_0000) as nat,
        exp: scale_bits / 0x10_0000_0000_0000 - 1075,
    };
    let (n, d) = (float::top(scale), float::bottom(scale));
    let points = float::Dyadic { mant: 96, exp: 0 };
    let a: nat = 0x20_0000_0000_0000;
    let b: nat = 0x1f_ffff_ffff_ffff;
    let r = float::product(53, scale, points);
    assert(n * d * 1 <= n * d * 1);
    assert(float::is_within(n, d, n, d, 1, 1));
    assert(float::top(points) == 96 && float::bottom(points) == 1);
    float::lemma_product_within(53, scale, points, n, d, 1, 1, 96, 1, 1, 1);
    assert(n * 96 == 96 * n && d * 1 == d);
    vstd::arithmetic::power2::lemma_pow2_pos((-scale.exp) as nat);
    float::lemma_loosen(
        float::top(r),
        float::bottom(r),
        96 * n,
        d,
        a * (1 * 1),
        b * (1 * 1),
        a,
        b,
    );
    float::lemma_floor_near(r, 96 * n, d, a, b);
    let f = float::floor(r);
    let m = margin_of(scale_bits);
    assert(m * d * b <= f * d * b) by (nonlinear_arith)
        requires
            m <= f,
    ;
    let other = (scale_bits + 0x8000_0000_0000_0000) as u64;
    assert(other / 0x10_0000_0000_0000 == scale_bits / 0x10_0000_0000_0000 + 2048);
    assert(other % 0x10_0000_0000_0000 == scale_bits % 0x10_0000_0000_0000);
}

/// Where the scale is too small to be a normal number, zero included, there is
/// no margin, and neither is there where the scale is no number; an infinite
/// scale gives the largest margin, or the smallest if it is negative.
pub proof fn odd_scales_have_a_margin(scale_bits: u64)
    ensures
        (scale_bits / 0x10_0000_0000_0000) % 2048 == 0 ==> margin_of(scale_bits) == 0,
        (scale_bits / 0x10_0000_0000_0000) % 2048 == 2047 && scale_bits % 0x10_0000_0000_0000 > 0
            ==> margin_of(scale_bits) == 0,
        scale_bits == 0x7ff0_0000_0000_0000 ==> margin_of(scale_bits) == i32::MAX,
        scale_bits == 0xfff0_0000_0000_0000 ==> margin_of(scale_bits) == i32::MIN,
{
    if (scale_bits / 0x10_0000_0000_0000) % 2048 == 0 {
        float::lemma_powers();
        let tail = (scale_bits % 0x10_0000_0000_0000) as nat;
        let scale = float::Dyadic { mant: tail, exp: -1074 };
        let points = float::Dyadic { mant: 96, exp: 0 };
        let r = float::product(53, scale, points);
        let d = float::bottom(scale);
        float::lemma_pow2_mono(64, 1074);
        if tail == 0 {
            assert(0 * 96 == 0);
            assert(r.mant == 0);
            assert(0 * vstd::arithmetic::power2::pow2(0) == 0);
        } else {
            let n = float::top(scale);
            assert(n == tail) by (nonlinear_arith)
                requires
                    n == tail * 1,
            ;
            assert(float::is_within(n, d, n, d, 1, 1));
            assert(float::top(points) == 96 && float::bottom(points) == 1);
            float::lemma_product_within(53, scale, points, n, d, 1, 1, 96, 1, 1, 1);
            let a: nat = 0x20_0000_0000_0000;
            let b: nat = 0x1f_ffff_ffff_ffff;
            assert(n * 96 == 96 * n && d * 1 == d);
            float::lemma_loosen(
                float::top(r),
                float::bottom(r),
                96 * n,
                d,
                a * (1 * 1),
                b * (1 * 1),
                a,
                b,
            );
            float::lemma_floor_near(r, 96 * n, d, a, b);
            let f = float::floor(r);
            assert(f == 0) by (nonlinear_arith)
                requires
                    f * d * b <= 96 * n * a,
                    d >= 0x1_0000_0000_0000_0000,
                    n < 0x10_0000_0000_0000,
                    a == 0x20_0000_0000_0000,
                    b == 0x1f_ffff_ffff_ffff,
            ;
        }
    }
}

/// What the menu shows: starting a dictation, Preferences and, set apart from
/// them, quitting, which alone has a key of its own.
pub proof fn menu_shows_three_items(m: Seq<MenuEntry>, i: int)
    requires
        is_menu(m),
        0 <= i < m.len(),
    ensures
        m[i] is Separator <==> i == 2,
        m[i] matches MenuEntry::Item { id, label, accelerator } ==> {
            &&& command_of(id@) is Dictate <==> label@ == "Start dictation"@
            &&& command_of(id@) is Preferences <==> label@ == "Preferences…"@
            &&& command_of(id@) is Exit <==> label@ == "Quit Rigg Voice"@
            &&& accelerator is Some <==> command_of(id@) is Exit
            &&& accelerator matches Some(k) ==> k@ == "Cmd+Q"@
        },
{
    commands_have_one_identifier("start"@);
    commands_have_one_identifier("prefs"@);
    commands_have_one_identifier("quit"@);
    reveal_strlit("start");
    reveal_strlit("prefs");
    reveal_strlit("quit");
    reveal_strlit("Start dictation");
    reveal_strlit("Preferences…");
    reveal_strlit("Quit Rigg Voice");
    assert("prefs"@[0] != "start"@[0]);
    assert("quit"@[0] != "start"@[0]);
    assert("quit"@[0] != "prefs"@[0]);
    assert("Preferences…"@[0] != "Start dictation"@[0]);
    assert("Quit Rigg Voice"@[0] != "Start dictation"@[0]);
    assert("Quit Rigg Voice"@[0] != "Preferences…"@[0]);
}

} // verus!
