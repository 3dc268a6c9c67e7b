//! Which application to paste into, and the keystrokes that paste.
use vstd::prelude::*;

verus! {

/// Window list option: windows on the screen.
pub const WINDOW_LIST_ON_SCREEN_ONLY: u32 = 1;

/// Window list option: no desktop elements.
pub const WINDOW_LIST_EXCLUDE_DESKTOP: u32 = 16;

/// No window to list relative to.
pub const NULL_WINDOW_ID: u32 = 0;

/// Event source: the combined state of the session.
pub const EVENT_SOURCE_COMBINED_SESSION_STATE: u32 = 0;

/// Key code of V.
pub const KEYCODE_V: u16 = 0x09;

/// Modifier flag of the Command key.
pub const FLAG_MASK_COMMAND: u64 = 0x0010_0000;

/// The entries of a window's description that matter here; an entry that is
/// missing or no 32-bit number is absent.
#[derive(Clone, Copy, Debug, PartialEq, Eq)]
pub struct Window {
    pub layer: Option<i32>,
    pub owner_pid: Option<i32>,
}

/// A key event to deliver to one process.
#[derive(Clone, Copy, Debug, PartialEq, Eq)]
pub struct KeyEvent {
    pub pid: i32,
    pub keycode: u16,
    pub key_down: bool,
    pub flags: u64,
}

/// The options for listing the windows of interest.
pub fn window_list_options() -> (r: u32)
    ensures
        r == WINDOW_LIST_ON_SCREEN_ONLY | WINDOW_LIST_EXCLUDE_DESKTOP,
{
    WINDOW_LIST_ON_SCREEN_ONLY | WINDOW_LIST_EXCLUDE_DESKTOP
}

/// Reads a number out of a description. `value` is what a numeric conversion
/// reported, its success flag and its output, or `None` where the entry is
/// missing.
pub fn dict_i32(value: Option<(u8, i32)>) -> (r: Option<i32>)
    ensures
        r == (match value {
            Some((ok, out)) if ok != 0 => Some(out),
            _ => None::<i32>,
        }),
{
    match value {
        Some((ok, out)) => if ok != 0 {
            Some(out)
        } else {
            None
        },
        None => None,
    }
}

/// The window is an ordinary one (layer 0) and its owner is known.
pub open spec fn is_candidate(w: Option<Window>) -> bool {
    w matches Some(w) && w.layer == Some(0i32) && w.owner_pid is Some
}

/// The owner of the first ordinary window of a list.
pub open spec fn first_owner(list: Seq<Option<Window>>) -> Option<i32>
    decreases list.len(),
{
    if list.len() == 0 {
        None
    } else if is_candidate(list.first()) {
        list.first()->0.owner_pid
    } else {
        first_owner(list.drop_first())
    }
}

/// The process that owns the frontmost ordinary window. `list` runs from front
/// to back, with `None` for an entry without a description; there may be no
/// list at all.
pub fn frontmost_pid(list: Option<&Vec<Option<Window>>>) -> (r: Option<i32>)
    ensures
        list is None ==> r is None,
        list matches Some(v) ==> r == first_owner(v@),
{
    match list {
        None => None,
        Some(v) => {
            let mut i: usize = 0;
            assert(v@.skip(0) =~= v@);
            while i < v.len()
                invariant
                    list == Some(v),
                    i <= v@.len(),
                    first_owner(v@) == first_owner(v@.skip(i as int)),
                decreases v@.len() - i,
            {
                assert(v@.skip(i as int).drop_first() =~= v@.skip(i + 1));
                if let Some(w) = v[i] {
                    let layer: i32 = match w.layer {
                        Some(n) => n,
                        None => -1,
                    };
                    if layer == 0 {
                        if let Some(pid) = w.owner_pid {
                            return Some(pid);
                        }
                    }
                }
                i = i + 1;
            }
            None
        },
    }
}

/// Windows in front of the first ordinary one, such as floating bars, do not
/// count, and nothing behind it does.
pub proof fn frontmost_ignores_other_layers(
    front: Seq<Option<Window>>,
    w: Option<Window>,
    back: Seq<Option<Window>>,
)
    requires
        forall|i: int| 0 <= i < front.len() ==> !is_candidate(#[trigger] front[i]),
        is_candidate(w),
    ensures
        first_owner(front + seq![w] + back) == w->0.owner_pid,
        first_owner(front) is None,
    decreases front.len(),
{
    let all = front + seq![w] + back;
    if front.len() > 0 {
        assert(!is_candidate(front[0]));
        assert(all.drop_first() =~= front.drop_first() + seq![w] + back);
        frontmost_ignores_other_layers(front.drop_first(), w, back);
    }
}

/// The keystrokes that paste into a process: Command-V, pressed and released.
pub open spec fn paste_keys(pid: i32) -> Seq<KeyEvent> {
    seq![
        KeyEvent { pid, keycode: KEYCODE_V, key_down: true, flags: FLAG_MASK_COMMAND },
        KeyEvent { pid, keycode: KEYCODE_V, key_down: false, flags: FLAG_MASK_COMMAND },
    ]
}

/// The key events that paste the clipboard into `pid`, in order.
pub fn paste_into(pid: i32) -> (r: Vec<KeyEvent>)
    ensures
        r@ == paste_keys(pid),
{
    let mut keys: Vec<KeyEvent> = Vec::new();
    keys.push(KeyEvent { pid, keycode: KEYCODE_V, key_down: true, flags: FLAG_MASK_COMMAND });
    keys.push(KeyEvent { pid, keycode: KEYCODE_V, key_down: false, flags: FLAG_MASK_COMMAND });
    keys
}

/// The key events that paste into the remembered application, if there is one.
pub fn paste_last(target: Option<i32>) -> (r: Vec<KeyEvent>)
    ensures
        target matches Some(pid) ==> r@ == paste_keys(pid),
        target is None ==> r@.len() == 0,
{
    match target {
        Some(pid) => paste_into(pid),
        None => Vec::new(),
    }
}

/// The application to paste into after a trigger: the frontmost one, unless
/// that is this process or unknown, in which case the earlier choice stays.
pub open spec fn target_after(target: Option<i32>, frontmost: Option<i32>, me: u32) -> Option<i32> {
    match frontmost {
        Some(pid) if pid != me as i32 => Some(pid),
        _ => target,
    }
}

/// Chooses the application to paste into; `me` is this process.
pub fn remember_target(target: Option<i32>, frontmost: Option<i32>, me: u32) -> (r: Option<i32>)
    ensures
        r == target_after(target, frontmost, me),
{
    match frontmost {
        Some(pid) => if pid != me as i32 {
            Some(pid)
        } else {
            target
        },
        None => target,
    }
}

/// The agent never becomes its own target: whatever triggers in whatever
/// order, a target that was another process stays another process.
pub proof fn never_pastes_into_itself(target: Option<i32>, frontmosts: Seq<Option<i32>>, me: u32)
    requires
        target != Some(me as i32),
    ensures
        targets_after(target, frontmosts, me) != Some(me as i32),
    decreases frontmosts.len(),
{
    if frontmosts.len() > 0 {
        never_pastes_into_itself(target, frontmosts.drop_last(), me);
    }
}

/// The target after a run of triggers.
pub open spec fn targets_after(
    target: Option<i32>,
    frontmosts: Seq<Option<i32>>,
    me: u32,
) -> Option<i32>
    decreases frontmosts.len(),
{
    if frontmosts.len() == 0 {
        target
    } else {
        target_after(
            targets_after(target, frontmosts.drop_last(), me),
            frontmosts.last(),
            me,
        )
    }
}

/// Each key that a paste presses it releases, for the same process and with
/// the same modifiers.
pub proof fn paste_releases_what_it_presses(pid: i32)
    ensures
        paste_keys(pid).len() == 2,
        paste_keys(pid)[0].key_down,
        paste_keys(pid)[1] == (KeyEvent { key_down: false, ..paste_keys(pid)[0] }),
{
}

/// A trigger remembers the application in front, whichever other process that
/// is; where that is this process or none is known, the earlier choice stays.
pub proof fn trigger_remembers_the_front(target: Option<i32>, pid: i32, me: u32)
    ensures
        pid != me as i32 ==> target_after(target, Some(pid), me) == Some(pid),
        target_after(target, Some(me as i32), me) == target,
        target_after(target, None, me) == target,
{
}

/// After any triggers the target is the application that was in front last, of
/// those that were in front and are not this process.
pub proof fn target_was_in_front_last(
    target: Option<i32>,
    before: Seq<Option<i32>>,
    pid: i32,
    after: Seq<Option<i32>>,
    me: u32,
)
    requires
        pid != me as i32,
        forall|i: int|
            0 <= i < after.len() ==> #[trigger] after[i] is None || after[i] == Some(me as i32),
    ensures
        targets_after(target, before.push(Some(pid)) + after, me) == Some(pid),
    decreases after.len(),
{
    let all = before.push(Some(pid)) + after;
    if after.len() == 0 {
        assert(all =~= before.push(Some(pid)));
        assert(all.drop_last() =~= before);
    } else {
        assert(all.drop_last() =~= before.push(Some(pid)) + after.drop_last());
        assert(all.last() == after[after.len() - 1]);
        assert forall|i: int| 0 <= i < after.drop_last().len() implies #[trigger] after.drop_last()[i]
            is None || after.drop_last()[i] == Some(me as i32) by {
            assert(after.drop_last()[i] == after[i]);
        }
        target_was_in_front_last(target, before, pid, after.drop_last(), me);
    }
}

/// The owner of the first window on layer 0 whose owner is known is the one in
/// front, whatever windows lie before and behind it; a list without such a
/// window has none.
pub proof fn first_ordinary_window_is_in_front(
    front: Seq<Option<Window>>,
    pid: i32,
    back: Seq<Option<Window>>,
)
    requires
        forall|i: int|
            0 <= i < front.len() ==> match #[trigger] front[i] {
                Some(w) => w.layer != Some(0i32) || w.owner_pid is None,
                None => true,
            },
    ensures
        first_owner(
            front + seq![Some(Window { layer: Some(0i32), owner_pid: Some(pid) })] + back,
        ) == Some(pid),
        first_owner(front) is None,
{
    let w = Some(Window { layer: Some(0i32), owner_pid: Some(pid) });
    assert forall|i: int| 0 <= i < front.len() implies !is_candidate(#[trigger] front[i]) by {}
    frontmost_ignores_other_layers(front, w, back);
}

/// A paste is Command-V for the process it is meant for: the V key (code 9) goes
/// down and up, with the Command flag (bit 20) alone.
pub proof fn paste_is_command_v(pid: i32, i: int)
    requires
        0 <= i < paste_keys(pid).len(),
    ensures
        paste_keys(pid).len() == 2,
        paste_keys(pid)[i].pid == pid,
        paste_keys(pid)[i].keycode == 9,
        paste_keys(pid)[i].flags == 0x10_0000,
        paste_keys(pid)[i].key_down <==> i == 0,
{
}

} // verus!
