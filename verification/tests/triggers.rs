use rigg_voice::fn_tap::{spawn, TapAction, TapContext, TapRequest, TapStart};
use rigg_voice::paste::{
    dict_i32, frontmost_pid, paste_into, paste_last, remember_target, window_list_options, KeyEvent, Window,
};

const FN: u64 = 0x80_0000;
const MS: u64 = 1_000_000;

fn tap(ctx: &mut TapContext, at_ms: u64) -> TapAction {
    let r = ctx.tap_callback(12, FN | 0x100, at_ms * MS);
    assert_eq!(ctx.tap_callback(12, 0x100, (at_ms + 20) * MS), TapAction::Pass);
    r
}

#[test]
fn a_double_tap_triggers() {
    let mut ctx = TapContext::new();
    assert_eq!(tap(&mut ctx, 1000), TapAction::Pass);
    assert_eq!(tap(&mut ctx, 1449), TapAction::Trigger);
}

#[test]
fn slow_taps_do_not_trigger() {
    let mut ctx = TapContext::new();
    assert_eq!(tap(&mut ctx, 1000), TapAction::Pass);
    assert_eq!(tap(&mut ctx, 1450), TapAction::Pass);
    assert_eq!(tap(&mut ctx, 1600), TapAction::Trigger);
}

#[test]
fn a_triple_tap_triggers_once() {
    let mut ctx = TapContext::new();
    let taps = vec![tap(&mut ctx, 0), tap(&mut ctx, 100), tap(&mut ctx, 200), tap(&mut ctx, 300)];
    assert_eq!(taps, vec![TapAction::Pass, TapAction::Trigger, TapAction::Pass, TapAction::Trigger]);
}

#[test]
fn a_held_key_does_not_trigger() {
    let mut ctx = TapContext::new();
    assert_eq!(ctx.tap_callback(12, FN, 0), TapAction::Pass);
    assert_eq!(ctx.tap_callback(12, FN | 0x2_0000, 100 * MS), TapAction::Pass);
    assert_eq!(ctx.tap_callback(12, FN, 200 * MS), TapAction::Pass);
}

#[test]
fn a_clock_that_runs_back_counts_as_no_time() {
    let mut ctx = TapContext::new();
    assert_eq!(tap(&mut ctx, 1000), TapAction::Pass);
    assert_eq!(tap(&mut ctx, 500), TapAction::Trigger);
}

#[test]
fn a_disabled_tap_is_enabled_again() {
    let mut ctx = TapContext::new();
    assert_eq!(ctx.tap_callback(0xFFFF_FFFE, 0, 0), TapAction::Pass);
    assert_eq!(ctx.attach(77), TapStart::Serve);
    let before = ctx;
    assert_eq!(ctx.tap_callback(0xFFFF_FFFE, FN, 0), TapAction::Rearm(77));
    assert_eq!(ctx.tap_callback(0xFFFF_FFFF, FN, 0), TapAction::Rearm(77));
    assert_eq!(ctx.tap_callback(10, FN, 0), TapAction::Pass);
    assert_eq!(ctx, before);
}

#[test]
fn a_refused_tap_is_reported() {
    let mut ctx = TapContext::new();
    match ctx.attach(0) {
        TapStart::Unavailable(m) => assert!(m.starts_with("[fn_tap] CGEventTapCreate returned null")),
        TapStart::Serve => panic!("there is no tap"),
    }
    assert_eq!(spawn(), TapRequest { location: 1, placement: 0, options: 1, mask: 4096 });
}

fn window(layer: i32, pid: i32) -> Option<Window> {
    Some(Window { layer: Some(layer), owner_pid: Some(pid) })
}

#[test]
fn the_first_ordinary_window_wins() {
    let list = vec![
        None,
        window(25, 1),
        Some(Window { layer: None, owner_pid: Some(2) }),
        Some(Window { layer: Some(0), owner_pid: None }),
        window(0, 42),
        window(0, 43),
    ];
    assert_eq!(frontmost_pid(Some(&list)), Some(42));
    assert_eq!(frontmost_pid(Some(&vec![window(3, 1)])), None);
    assert_eq!(frontmost_pid(Some(&Vec::new())), None);
    assert_eq!(frontmost_pid(None), None);
    assert_eq!(window_list_options(), 17);
}

#[test]
fn numbers_are_read_from_descriptions() {
    assert_eq!(dict_i32(None), None);
    assert_eq!(dict_i32(Some((0, 5))), None);
    assert_eq!(dict_i32(Some((1, 5))), Some(5));
    assert_eq!(dict_i32(Some((255, -1))), Some(-1));
}

#[test]
fn pasting_is_command_v() {
    let key = |key_down| KeyEvent { pid: 42, keycode: 9, key_down, flags: 0x10_0000 };
    assert_eq!(paste_into(42), vec![key(true), key(false)]);
    assert_eq!(paste_last(Some(42)), paste_into(42));
    assert_eq!(paste_last(None), Vec::new());
}

#[test]
fn the_agent_is_never_its_own_target() {
    assert_eq!(remember_target(None, Some(7), 7), None);
    assert_eq!(remember_target(Some(3), Some(7), 7), Some(3));
    assert_eq!(remember_target(Some(3), Some(9), 7), Some(9));
    assert_eq!(remember_target(Some(3), None, 7), Some(3));
    assert_eq!(remember_target(None, Some(-1), u32::MAX), None);
}
