use vstd::prelude::*;

use crate::actions::{
    first_gesture_action, gesture_action_index, slot_spec, trigger_button_for_slot,
    trigger_for_slot_spec,
};
use crate::binding::{
    modifier_name, mouse_button_spec, normalize_mouse_trigger, parse_keyboard_spec,
    strings_view, MouseButton,
};
use crate::config::{opt_string_view, Action, ActionView, Config, ConfigView};
use crate::keys::vk_spec;
use crate::text::{chars_of, eq_lit, string_from};
use std::collections::HashSet;

verus! {

// ---------------------------------------------------------------------------
// Input events (Windows low-level hook message codes)
// ---------------------------------------------------------------------------

pub const WM_KEYDOWN: u32 = 0x0100;
pub const WM_KEYUP: u32 = 0x0101;
pub const WM_SYSKEYDOWN: u32 = 0x0104;
pub const WM_SYSKEYUP: u32 = 0x0105;
pub const WM_MOUSEMOVE: u32 = 0x0200;
pub const WM_LBUTTONDOWN: u32 = 0x0201;
pub const WM_LBUTTONUP: u32 = 0x0202;
pub const WM_RBUTTONDOWN: u32 = 0x0204;
pub const WM_RBUTTONUP: u32 = 0x0205;
pub const WM_MBUTTONDOWN: u32 = 0x0207;
pub const WM_MBUTTONUP: u32 = 0x0208;
pub const WM_MOUSEWHEEL: u32 = 0x020A;
pub const WM_XBUTTONDOWN: u32 = 0x020B;
pub const WM_XBUTTONUP: u32 = 0x020C;

/// The X button a mouse event's data word names (its high word: 1 or 2).
pub open spec fn xbutton_spec(mouse_data: u32) -> Option<MouseButton> {
    let x = (mouse_data >> 16u32) & 0xFFFFu32;
    if x == 1 {
        Some(MouseButton::X1)
    } else if x == 2 {
        Some(MouseButton::X2)
    } else {
        None
    }
}

/// The X button a mouse event's data word names.
pub fn xbutton_name(mouse_data: u32) -> (r: Option<MouseButton>)
    ensures
        r == xbutton_spec(mouse_data),
{
    let x = (mouse_data >> 16u32) & 0xFFFFu32;
    if x == 1 {
        Some(MouseButton::X1)
    } else if x == 2 {
        Some(MouseButton::X2)
    } else {
        None
    }
}

/// Whether a mouse event is the press of button `b`.
pub open spec fn is_press_of(b: MouseButton, event_type: u32, mouse_data: u32) -> bool {
    match b {
        MouseButton::Left => event_type == WM_LBUTTONDOWN,
        MouseButton::Right => event_type == WM_RBUTTONDOWN,
        MouseButton::Middle => event_type == WM_MBUTTONDOWN,
        MouseButton::X1 => event_type == WM_XBUTTONDOWN && xbutton_spec(mouse_data) == Some(
            MouseButton::X1,
        ),
        MouseButton::X2 => event_type == WM_XBUTTONDOWN && xbutton_spec(mouse_data) == Some(
            MouseButton::X2,
        ),
    }
}

/// Whether a mouse event is the release of button `b`.
pub open spec fn is_release_of(b: MouseButton, event_type: u32, mouse_data: u32) -> bool {
    match b {
        MouseButton::Left => event_type == WM_LBUTTONUP,
        MouseButton::Right => event_type == WM_RBUTTONUP,
        MouseButton::Middle => event_type == WM_MBUTTONUP,
        MouseButton::X1 => event_type == WM_XBUTTONUP && xbutton_spec(mouse_data) == Some(
            MouseButton::X1,
        ),
        MouseButton::X2 => event_type == WM_XBUTTONUP && xbutton_spec(mouse_data) == Some(
            MouseButton::X2,
        ),
    }
}

fn is_press_of_exec(b: MouseButton, event_type: u32, mouse_data: u32) -> (r: bool)
    ensures
        r == is_press_of(b, event_type, mouse_data),
{
    match b {
        MouseButton::Left => event_type == WM_LBUTTONDOWN,
        MouseButton::Right => event_type == WM_RBUTTONDOWN,
        MouseButton::Middle => event_type == WM_MBUTTONDOWN,
        MouseButton::X1 => event_type == WM_XBUTTONDOWN && xbutton_name(mouse_data) == Some(
            MouseButton::X1,
        ),
        MouseButton::X2 => event_type == WM_XBUTTONDOWN && xbutton_name(mouse_data) == Some(
            MouseButton::X2,
        ),
    }
}

fn is_release_of_exec(b: MouseButton, event_type: u32, mouse_data: u32) -> (r: bool)
    ensures
        r == is_release_of(b, event_type, mouse_data),
{
    match b {
        MouseButton::Left => event_type == WM_LBUTTONUP,
        MouseButton::Right => event_type == WM_RBUTTONUP,
        MouseButton::Middle => event_type == WM_MBUTTONUP,
        MouseButton::X1 => event_type == WM_XBUTTONUP && xbutton_name(mouse_data) == Some(
            MouseButton::X1,
        ),
        MouseButton::X2 => event_type == WM_XBUTTONUP && xbutton_name(mouse_data) == Some(
            MouseButton::X2,
        ),
    }
}

// ---------------------------------------------------------------------------
// Which slot an input starts
// ---------------------------------------------------------------------------

/// Whether the binding of `slot` is a mouse binding pressed by the event.
pub open spec fn slot_pressed_by_mouse(c: ConfigView, slot: Seq<char>, event_type: u32, mouse_data: u32) -> bool {
    match mouse_button_spec(trigger_for_slot_spec(c, slot)) {
        Some(b) => is_press_of(b, event_type, mouse_data),
        None => false,
    }
}

/// The first of the slots A, B, C whose binding the mouse event presses:
/// when bindings repeat, the earlier slot wins.  The left button never starts
/// a gesture, whatever slot it is bound to.
pub open spec fn mouse_down_slot_spec(c: ConfigView, event_type: u32, mouse_data: u32) -> Option<Seq<char>> {
    if event_type == WM_LBUTTONDOWN {
        None
    } else if slot_pressed_by_mouse(c, "A"@, event_type, mouse_data) {
        Some("A"@)
    } else if slot_pressed_by_mouse(c, "B"@, event_type, mouse_data) {
        Some("B"@)
    } else if slot_pressed_by_mouse(c, "C"@, event_type, mouse_data) {
        Some("C"@)
    } else {
        None
    }
}

fn slot_pressed_by_mouse_exec(config: &Config, slot: &str, event_type: u32, mouse_data: u32) -> (r: bool)
    ensures
        r == slot_pressed_by_mouse(config@, slot@, event_type, mouse_data),
{
    let trigger = chars_of(trigger_button_for_slot(config, slot));
    match normalize_mouse_trigger(trigger.as_slice()) {
        Some(b) => is_press_of_exec(b, event_type, mouse_data),
        None => false,
    }
}

/// The slot whose mouse binding the event presses (A before B before C); a
/// left-button press starts nothing.
pub fn trigger_slot_for_mouse_down(config: &Config, event_type: u32, mouse_data: u32) -> (r: Option<&'static str>)
    ensures
        match r {
            Some(s) => mouse_down_slot_spec(config@, event_type, mouse_data) == Some(s@),
            None => mouse_down_slot_spec(config@, event_type, mouse_data) is None,
        },
        event_type == WM_LBUTTONDOWN ==> r is None,
{
    if event_type == WM_LBUTTONDOWN {
        None
    } else if slot_pressed_by_mouse_exec(config, "A", event_type, mouse_data) {
        Some("A")
    } else if slot_pressed_by_mouse_exec(config, "B", event_type, mouse_data) {
        Some("B")
    } else if slot_pressed_by_mouse_exec(config, "C", event_type, mouse_data) {
        Some("C")
    } else {
        None
    }
}

/// Whether the event releases the mouse binding of the active slot.
pub open spec fn mouse_up_matches_spec(c: ConfigView, slot: Seq<char>, event_type: u32, mouse_data: u32) -> bool {
    match mouse_button_spec(trigger_for_slot_spec(c, slot)) {
        Some(b) => is_release_of(b, event_type, mouse_data),
        None => false,
    }
}

/// Whether the event releases the mouse binding of the active slot.
pub fn active_mouse_trigger_matches_up(config: &Config, slot: &str, event_type: u32, mouse_data: u32) -> (r: bool)
    ensures
        r == mouse_up_matches_spec(config@, slot@, event_type, mouse_data),
{
    let trigger = chars_of(trigger_button_for_slot(config, slot));
    match normalize_mouse_trigger(trigger.as_slice()) {
        Some(b) => is_release_of_exec(b, event_type, mouse_data),
        None => false,
    }
}

// ---------------------------------------------------------------------------
// Keyboard triggers
// ---------------------------------------------------------------------------

/// The virtual-key codes that stand for a modifier (either side).
pub open spec fn modifier_pressed_spec(keys: Set<u16>, m: Seq<char>) -> bool {
    if m == "Shift"@ {
        keys.contains(0x10) || keys.contains(0xA0) || keys.contains(0xA1)
    } else if m == "Ctrl"@ {
        keys.contains(0x11) || keys.contains(0xA2) || keys.contains(0xA3)
    } else if m == "Alt"@ {
        keys.contains(0x12) || keys.contains(0xA4) || keys.contains(0xA5)
    } else {
        false
    }
}

fn contains_key(keys: &HashSet<u16>, k: u16) -> (b: bool)
    ensures
        b == keys@.contains(k),
{
    broadcast use vstd::std_specs::hash::group_hash_axioms;

    keys.contains(&k)
}

/// Whether a modifier (by its canonical name) is held down.
pub fn modifier_pressed(keys: &HashSet<u16>, modifier: &str) -> (b: bool)
    ensures
        b == modifier_pressed_spec(keys@, modifier@),
{
    let m = chars_of(modifier);
    if eq_lit(m.as_slice(), "Shift") {
        contains_key(keys, 0x10) || contains_key(keys, 0xA0) || contains_key(keys, 0xA1)
    } else if eq_lit(m.as_slice(), "Ctrl") {
        contains_key(keys, 0x11) || contains_key(keys, 0xA2) || contains_key(keys, 0xA3)
    } else if eq_lit(m.as_slice(), "Alt") {
        contains_key(keys, 0x12) || contains_key(keys, 0xA4) || contains_key(keys, 0xA5)
    } else {
        false
    }
}

pub open spec fn all_modifiers_pressed(keys: Set<u16>, ms: Seq<Seq<char>>) -> bool {
    forall|i: int| 0 <= i < ms.len() ==> modifier_pressed_spec(keys, #[trigger] ms[i])
}

fn all_pressed(keys: &HashSet<u16>, ms: &Vec<String>) -> (b: bool)
    ensures
        b == all_modifiers_pressed(keys@, strings_view(ms@)),
{
    let n = ms.len();
    let mut i: usize = 0;
    while i < n
        invariant
            i <= n,
            n == ms@.len(),
            forall|j: int| 0 <= j < i ==> modifier_pressed_spec(keys@, #[trigger] strings_view(ms@)[j]),
        decreases n - i,
    {
        if !modifier_pressed(keys, ms[i].as_str()) {
            assert(!modifier_pressed_spec(keys@, strings_view(ms@)[i as int]));
            return false;
        }
        i = i + 1;
    }
    true
}

/// Whether a keyboard binding is fully held: its key and all its modifiers.
pub open spec fn keyboard_trigger_active_spec(trigger: Seq<char>, keys: Set<u16>) -> bool {
    match parse_keyboard_spec(trigger) {
        Some((ms, code)) => match vk_spec(code) {
            Some(vk) => keys.contains(vk) && all_modifiers_pressed(keys, ms),
            None => false,
        },
        None => false,
    }
}

/// Whether a keyboard binding is fully held.
pub fn keyboard_trigger_active(trigger: &str, keys: &HashSet<u16>) -> (b: bool)
    ensures
        b == keyboard_trigger_active_spec(trigger@, keys@),
{
    match crate::binding::parse_keyboard_trigger(trigger) {
        Some((ms, code)) => match crate::keys::keyboard_code_to_vk(code.as_str()) {
            Some(vk) => contains_key(keys, vk) && all_pressed(keys, &ms),
            None => false,
        },
        None => false,
    }
}

/// Whether pressing key `vk` (with the keys held) starts a keyboard binding:
/// `vk` is its key and all its modifiers are held.
pub open spec fn keyboard_starts_spec(trigger: Seq<char>, vk: u16, keys: Set<u16>) -> bool {
    match parse_keyboard_spec(trigger) {
        Some((ms, code)) => match vk_spec(code) {
            Some(k) => k == vk && all_modifiers_pressed(keys, ms),
            None => false,
        },
        None => false,
    }
}

/// Whether pressing key `vk` starts a keyboard binding.
pub fn keyboard_trigger_starts_on_vk(trigger: &str, vk_code: u16, keys: &HashSet<u16>) -> (b: bool)
    ensures
        b == keyboard_starts_spec(trigger@, vk_code, keys@),
{
    match crate::binding::parse_keyboard_trigger(trigger) {
        Some((ms, code)) => match crate::keys::keyboard_code_to_vk(code.as_str()) {
            Some(k) => k == vk_code && all_pressed(keys, &ms),
            None => false,
        },
        None => false,
    }
}

/// The first of the slots A, B, C whose keyboard binding the key press starts.
pub open spec fn keyboard_down_slot_spec(c: ConfigView, vk: u16, keys: Set<u16>) -> Option<Seq<char>> {
    if keyboard_starts_spec(trigger_for_slot_spec(c, "A"@), vk, keys) {
        Some("A"@)
    } else if keyboard_starts_spec(trigger_for_slot_spec(c, "B"@), vk, keys) {
        Some("B"@)
    } else if keyboard_starts_spec(trigger_for_slot_spec(c, "C"@), vk, keys) {
        Some("C"@)
    } else {
        None
    }
}

/// The slot whose keyboard binding the key press starts (A before B before C).
pub fn trigger_slot_for_keyboard_down(config: &Config, vk_code: u16, keys: &HashSet<u16>) -> (r: Option<&'static str>)
    ensures
        match r {
            Some(s) => keyboard_down_slot_spec(config@, vk_code, keys@) == Some(s@),
            None => keyboard_down_slot_spec(config@, vk_code, keys@) is None,
        },
{
    if keyboard_trigger_starts_on_vk(trigger_button_for_slot(config, "A"), vk_code, keys) {
        Some("A")
    } else if keyboard_trigger_starts_on_vk(trigger_button_for_slot(config, "B"), vk_code, keys) {
        Some("B")
    } else if keyboard_trigger_starts_on_vk(trigger_button_for_slot(config, "C"), vk_code, keys) {
        Some("C")
    } else {
        None
    }
}

// ---------------------------------------------------------------------------
// Wheel actions
// ---------------------------------------------------------------------------

/// The wheel trigger of a wheel event: the direction is up when the signed
/// 16-bit delta in the data word's high word is positive; holding the left
/// button gives the `leftclick_` variant.
pub open spec fn wheel_trigger_spec(left_pressed: bool, mouse_data: u32) -> Seq<char> {
    let d = (mouse_data >> 16u32) & 0xFFFFu32;
    let up = 1 <= d <= 0x7FFF;
    if left_pressed {
        if up {
            "leftclick_wheel_up"@
        } else {
            "leftclick_wheel_down"@
        }
    } else {
        if up {
            "wheel_up"@
        } else {
            "wheel_down"@
        }
    }
}

/// The wheel trigger of a wheel event.
pub fn wheel_trigger_name(left_pressed: bool, mouse_data: u32) -> (s: String)
    ensures
        s@ == wheel_trigger_spec(left_pressed, mouse_data),
{
    let d = (mouse_data >> 16u32) & 0xFFFFu32;
    let up = 1 <= d && d <= 0x7FFF;
    if left_pressed {
        if up {
            string_from("leftclick_wheel_up")
        } else {
            string_from("leftclick_wheel_down")
        }
    } else {
        if up {
            string_from("wheel_up")
        } else {
            string_from("wheel_down")
        }
    }
}

pub open spec fn wheel_action_matches(a: ActionView, trigger: Seq<char>) -> bool {
    a.trigger_type == "wheel"@ && a.wheel_trigger == Some(trigger)
}

/// The first wheel action for the wheel trigger, in list order.
pub fn find_wheel_action<'a>(config: &'a Config, wheel_trigger: &str) -> (r: Option<&'a Action>)
    ensures
        match r {
            Some(a) => exists|i: int|
                0 <= i < config@.actions.len() && *a == config.actions@[i] && wheel_action_matches(
                    config@.actions[i],
                    wheel_trigger@,
                ) && forall|j: int|
                    0 <= j < i ==> !wheel_action_matches(#[trigger] config@.actions[j], wheel_trigger@),
            None => forall|j: int|
                0 <= j < config@.actions.len() ==> !wheel_action_matches(
                    #[trigger] config@.actions[j],
                    wheel_trigger@,
                ),
        },
{
    let n = config.actions.len();
    let mut i: usize = 0;
    while i < n
        invariant
            i <= n,
            n == config.actions@.len(),
            forall|j: int| 0 <= j < i ==> !wheel_action_matches(#[trigger] config@.actions[j], wheel_trigger@),
        decreases n - i,
    {
        let a = &config.actions[i];
        assert(config@.actions[i as int] == a@);
        let tt = chars_of(a.trigger_type.as_str());
        let hit = eq_lit(tt.as_slice(), "wheel") && match &a.wheel_trigger {
            Some(w) => {
                let wc = chars_of(w.as_str());
                eq_lit(wc.as_slice(), wheel_trigger)
            },
            None => false,
        };
        if hit {
            return Some(a);
        }
        i = i + 1;
    }
    None
}

// ---------------------------------------------------------------------------
// Ignored programs
// ---------------------------------------------------------------------------

/// The lowercase form of a string as `str::to_lowercase` computes it (full
/// Unicode case mapping).
pub uninterp spec fn str_lowercase(s: Seq<char>) -> Seq<char>;

/// `str::to_lowercase`: the Unicode lowercase equivalent of a string.  The
/// contract names the result only; the Unicode tables are not restated.
#[verifier::external_body]
fn to_lowercase(s: &str) -> (r: String)
    ensures
        r@ == str_lowercase(s@),
{
    s.to_lowercase()
}

/// Whether a program (by its lowercase executable name) is on an ignore list;
/// the list entries are compared in lowercase.
pub open spec fn is_ignored_spec(list: Seq<Seq<char>>, exe_name: Seq<char>) -> bool {
    exists|i: int| 0 <= i < list.len() && str_lowercase(#[trigger] list[i]) == exe_name
}

/// Whether a program is on an ignore list.
pub fn is_ignored_exe(list: &Vec<String>, exe_name: &str) -> (b: bool)
    ensures
        b == is_ignored_spec(strings_view(list@), exe_name@),
{
    let n = list.len();
    let mut i: usize = 0;
    while i < n
        invariant
            i <= n,
            n == list@.len(),
            forall|j: int| 0 <= j < i ==> str_lowercase(#[trigger] strings_view(list@)[j]) != exe_name@,
        decreases n - i,
    {
        let l = to_lowercase(list[i].as_str());
        let lc = chars_of(l.as_str());
        assert(strings_view(list@)[i as int] == list@[i as int]@);
        if eq_lit(lc.as_slice(), exe_name) {
            return true;
        }
        i = i + 1;
    }
    false
}

// ---------------------------------------------------------------------------
// Short clicks and preview pacing
// ---------------------------------------------------------------------------

/// The most points a gesture may have and still count as a plain click.
pub const SMALL_MOVE_POINTS: usize = 8;

/// The fewest points before the recognized action is previewed.
pub const PREVIEW_MIN_POINTS: usize = 6;

/// The least time between two previews, in milliseconds.
pub const PREVIEW_INTERVAL_MS: u64 = 16;

/// An unrecognized, short movement under slot A bound to the right button is a
/// plain right click, which is passed on to the window.
pub open spec fn passes_right_click_spec(c: ConfigView, slot: Seq<char>, recognized: bool, point_count: nat) -> bool {
    &&& !recognized
    &&& 0 < point_count <= SMALL_MOVE_POINTS
    &&& slot == "A"@
    &&& mouse_button_spec(trigger_for_slot_spec(c, slot)) == Some(MouseButton::Right)
}

/// Whether a finished movement is a plain right click to pass on.
pub fn passes_right_click(config: &Config, slot: &str, recognized: bool, point_count: usize) -> (b: bool)
    ensures
        b == passes_right_click_spec(config@, slot@, recognized, point_count as nat),
{
    if recognized || point_count == 0 || point_count > SMALL_MOVE_POINTS {
        return false;
    }
    let s = chars_of(slot);
    if !eq_lit(s.as_slice(), "A") {
        return false;
    }
    let trigger = chars_of(trigger_button_for_slot(config, slot));
    normalize_mouse_trigger(trigger.as_slice()) == Some(MouseButton::Right)
}

/// Whether a preview is due: none was shown yet, or the last one is at least
/// `PREVIEW_INTERVAL_MS` old.
pub fn preview_due(elapsed_ms: Option<u64>) -> (b: bool)
    ensures
        b == match elapsed_ms {
            Some(e) => e >= PREVIEW_INTERVAL_MS,
            None => true,
        },
{
    match elapsed_ms {
        Some(e) => e >= PREVIEW_INTERVAL_MS,
        None => true,
    }
}

// ---------------------------------------------------------------------------
// The preview of the recognized action while drawing
// ---------------------------------------------------------------------------

/// What the preview of the recognized action does after a movement.
pub enum PreviewStep {
    /// The preview stays as it is.
    Keep,
    /// The preview shown is taken away.
    Clear,
    /// The action at this position of the action list is previewed.
    Show(usize),
}

pub enum PreviewStepView {
    Keep,
    Clear,
    Show(int),
}

impl View for PreviewStep {
    type V = PreviewStepView;

    open spec fn view(&self) -> PreviewStepView {
        match self {
            PreviewStep::Keep => PreviewStepView::Keep,
            PreviewStep::Clear => PreviewStepView::Clear,
            PreviewStep::Show(i) => PreviewStepView::Show(*i as int),
        }
    }
}

/// The preview after a movement, given the active configuration, the active
/// slot, the number of recorded points, whether a preview is shown, and the
/// gesture the recognizer matches on the points so far.  With fewer than
/// `PREVIEW_MIN_POINTS` points, no active slot, no match or no action for the
/// match, a shown preview is cleared; with no configuration the preview is
/// cleared in any case; otherwise the first gesture action of the slot for the
/// match is previewed.
pub open spec fn preview_step_spec(
    c: Option<ConfigView>,
    slot: Option<Seq<char>>,
    point_count: nat,
    shown: bool,
    recognized: Option<Seq<char>>,
) -> PreviewStepView {
    let clear_if_shown = if shown {
        PreviewStepView::Clear
    } else {
        PreviewStepView::Keep
    };
    if point_count < PREVIEW_MIN_POINTS || slot is None {
        clear_if_shown
    } else {
        match c {
            None => PreviewStepView::Clear,
            Some(c) => match recognized {
                None => clear_if_shown,
                Some(name) => match first_gesture_action(c.actions, slot->0, name) {
                    Some(i) => PreviewStepView::Show(i),
                    None => clear_if_shown,
                },
            },
        }
    }
}

/// Decides the preview after a movement (see `preview_step_spec`).
pub fn preview_step(
    config: Option<&Config>,
    slot: Option<&str>,
    point_count: usize,
    shown: bool,
    recognized: Option<&str>,
) -> (r: PreviewStep)
    ensures
        r@ == preview_step_spec(
            opt_config_view(config),
            opt_str_view(slot),
            point_count as nat,
            shown,
            opt_str_view(recognized),
        ),
{
    let clear_if_shown = if shown {
        PreviewStep::Clear
    } else {
        PreviewStep::Keep
    };
    if point_count < PREVIEW_MIN_POINTS {
        return clear_if_shown;
    }
    match slot {
        None => clear_if_shown,
        Some(slot) => match config {
            None => PreviewStep::Clear,
            Some(c) => match recognized {
                None => clear_if_shown,
                Some(name) => match gesture_action_index(c, slot, name) {
                    Some(i) => PreviewStep::Show(i),
                    None => clear_if_shown,
                },
            },
        },
    }
}

// ---------------------------------------------------------------------------
// The end of a gesture
// ---------------------------------------------------------------------------

/// What happens when a gesture ends.
pub enum GestureOutcome {
    /// Run the action at this position of the action list and report the
    /// recognized gesture.
    Run(usize),
    /// The action found lists the program the gesture started in among its
    /// ignored programs: nothing runs.
    Ignored,
    /// A short, unrecognized movement under a right-button binding: a plain
    /// right click is passed on at this point.
    RightClick(i32, i32),
    /// Nothing is done.
    Nothing,
}

pub enum OutcomeView {
    Run(int),
    Ignored,
    RightClick(i32, i32),
    Nothing,
}

impl View for GestureOutcome {
    type V = OutcomeView;

    open spec fn view(&self) -> OutcomeView {
        match self {
            GestureOutcome::Run(i) => OutcomeView::Run(*i as int),
            GestureOutcome::Ignored => OutcomeView::Ignored,
            GestureOutcome::RightClick(x, y) => OutcomeView::RightClick(*x, *y),
            GestureOutcome::Nothing => OutcomeView::Nothing,
        }
    }
}

pub open spec fn opt_str_view(o: Option<&str>) -> Option<Seq<char>> {
    match o {
        Some(s) => Some(s@),
        None => None,
    }
}

/// The decision at the end of a gesture under `slot`.  Nothing happens when no
/// point was recorded or gestures are switched off.  A recognized gesture runs
/// the first gesture action of the slot for it, unless that action's ignore
/// list names the program the gesture started in.  An unrecognized movement
/// passes a right click on at its first point when `passes_right_click_spec`
/// says so.
pub open spec fn gesture_outcome_spec(
    c: ConfigView,
    slot: Seq<char>,
    points: Seq<(i32, i32)>,
    enabled: bool,
    recognized: Option<Seq<char>>,
    start_exe: Option<Seq<char>>,
) -> OutcomeView {
    if points.len() == 0 || !enabled {
        OutcomeView::Nothing
    } else {
        match recognized {
            Some(name) => match first_gesture_action(c.actions, slot, name) {
                Some(i) => {
                    let ignored = match (start_exe, c.actions[i].ignore_exe) {
                        (Some(exe), Some(list)) => is_ignored_spec(list, exe),
                        _ => false,
                    };
                    if ignored {
                        OutcomeView::Ignored
                    } else {
                        OutcomeView::Run(i)
                    }
                },
                None => OutcomeView::Nothing,
            },
            None => if passes_right_click_spec(c, slot, false, points.len()) {
                OutcomeView::RightClick(points[0].0, points[0].1)
            } else {
                OutcomeView::Nothing
            },
        }
    }
}

/// Decides what the end of a gesture does, given the recorded points, whether
/// gestures are enabled, the gesture the recognizer matched (if any) and the
/// executable name of the window the gesture started in (if known).
pub fn gesture_outcome(
    config: &Config,
    slot: &str,
    points: &Vec<(i32, i32)>,
    enabled: bool,
    recognized: Option<&str>,
    start_exe: Option<&str>,
) -> (r: GestureOutcome)
    ensures
        r@ == gesture_outcome_spec(
            config@,
            slot@,
            points@,
            enabled,
            opt_str_view(recognized),
            opt_str_view(start_exe),
        ),
{
    if points.len() == 0 || !enabled {
        return GestureOutcome::Nothing;
    }
    match recognized {
        Some(name) => match gesture_action_index(config, slot, name) {
            Some(i) => {
                let a = &config.actions[i];
                assert(config@.actions[i as int] == a@);
                let ignored = match (start_exe, &a.ignore_exe) {
                    (Some(exe), Some(list)) => is_ignored_exe(list, exe),
                    _ => false,
                };
                if ignored {
                    GestureOutcome::Ignored
                } else {
                    GestureOutcome::Run(i)
                }
            },
            None => GestureOutcome::Nothing,
        },
        None => {
            if passes_right_click(config, slot, false, points.len()) {
                GestureOutcome::RightClick(points[0].0, points[0].1)
            } else {
                GestureOutcome::Nothing
            }
        },
    }
}

} // verus!

verus! {

// ---------------------------------------------------------------------------
// The gesture session driven by the input hooks
// ---------------------------------------------------------------------------

/// The virtual-key code of Escape, which cancels a gesture in progress.
pub const VK_ESCAPE: u16 = 0x1B;

/// How long a released keyboard binding must stay released before the
/// gesture ends, in milliseconds.
pub const RELEASE_CONFIRM_MS: u64 = 120;

/// The state the input hooks keep between events.
pub struct GestureSession {
    pub dragging: bool,
    pub left_pressed: bool,
    pub release_pending: bool,
    pub active_slot: Option<String>,
    pub trajectory: Vec<(i32, i32)>,
    pub pressed_keys: HashSet<u16>,
}

pub struct SessionView {
    pub dragging: bool,
    pub left_pressed: bool,
    pub release_pending: bool,
    pub active_slot: Option<Seq<char>>,
    pub trajectory: Seq<(i32, i32)>,
    pub pressed_keys: Set<u16>,
}

impl View for GestureSession {
    type V = SessionView;

    open spec fn view(&self) -> SessionView {
        SessionView {
            dragging: self.dragging,
            left_pressed: self.left_pressed,
            release_pending: self.release_pending,
            active_slot: opt_string_view(self.active_slot),
            trajectory: self.trajectory@,
            pressed_keys: self.pressed_keys@,
        }
    }
}

/// What the hook is to do with an event.
pub enum HookStep {
    /// Hand the event on to the system.
    Pass,
    /// The event starts a gesture under this slot, unless the window under
    /// the cursor belongs to an ignored program.  A mouse event that starts a
    /// gesture is swallowed; a keyboard event is handed on.
    Start(&'static str),
    /// The cursor moved during a gesture; the point was recorded and the
    /// event is handed on.
    Moved,
    /// The gesture under this slot ends.  The mouse release that ends it is
    /// swallowed.
    Complete(String),
    /// The wheel turned during a gesture; the event is swallowed and the
    /// action for this wheel trigger runs, if there is one.
    Wheel(String),
    /// The keyboard binding of the gesture was let go; the gesture ends when
    /// `on_release_timer` finds it still let go `RELEASE_CONFIRM_MS` later.
    /// The event is handed on.
    ReleasePending,
    /// Escape cancelled the gesture: it ended without any action.  The event
    /// is handed on.
    Cancel,
}

pub enum HookStepView {
    Pass,
    Start(Seq<char>),
    Moved,
    Complete(Seq<char>),
    Wheel(Seq<char>),
    ReleasePending,
    Cancel,
}

impl View for HookStep {
    type V = HookStepView;

    open spec fn view(&self) -> HookStepView {
        match self {
            HookStep::Pass => HookStepView::Pass,
            HookStep::Start(s) => HookStepView::Start(s@),
            HookStep::Moved => HookStepView::Moved,
            HookStep::Complete(s) => HookStepView::Complete(s@),
            HookStep::Wheel(s) => HookStepView::Wheel(s@),
            HookStep::ReleasePending => HookStepView::ReleasePending,
            HookStep::Cancel => HookStepView::Cancel,
        }
    }
}

pub open spec fn is_button_down(ev: u32) -> bool {
    ev == WM_LBUTTONDOWN || ev == WM_RBUTTONDOWN || ev == WM_MBUTTONDOWN || ev == WM_XBUTTONDOWN
}

pub open spec fn is_button_up(ev: u32) -> bool {
    ev == WM_LBUTTONUP || ev == WM_RBUTTONUP || ev == WM_MBUTTONUP || ev == WM_XBUTTONUP
}

pub open spec fn opt_config_view(c: Option<&Config>) -> Option<ConfigView> {
    match c {
        Some(c) => Some(c@),
        None => None,
    }
}

/// The session after the teardown that ends a gesture without any action:
/// no gesture, no pending release, no recorded points; the button and key
/// state is kept.
pub open spec fn cancelled(s: SessionView) -> SessionView {
    SessionView {
        dragging: false,
        release_pending: false,
        active_slot: None,
        trajectory: Seq::empty(),
        ..s
    }
}

/// One mouse event: the left-button flag follows the left button; a button
/// press that starts a slot's binding asks to start a gesture; during a
/// gesture a move is recorded, the release of the active binding ends it, and
/// the wheel names its wheel trigger.
pub open spec fn mouse_step_spec(s: SessionView, c: Option<ConfigView>, ev: u32, data: u32, x: i32, y: i32) -> (SessionView, HookStepView) {
    let s1 = SessionView {
        left_pressed: if ev == WM_LBUTTONDOWN {
            true
        } else if ev == WM_LBUTTONUP {
            false
        } else {
            s.left_pressed
        },
        ..s
    };
    if is_button_down(ev) {
        match c {
            Some(c) => match mouse_down_slot_spec(c, ev, data) {
                Some(slot) => (s1, HookStepView::Start(slot)),
                None => (s1, HookStepView::Pass),
            },
            None => (s1, HookStepView::Pass),
        }
    } else if ev == WM_MOUSEMOVE {
        if s1.dragging {
            (SessionView { trajectory: s1.trajectory.push((x, y)), ..s1 }, HookStepView::Moved)
        } else {
            (s1, HookStepView::Pass)
        }
    } else if is_button_up(ev) {
        match (c, s1.active_slot) {
            (Some(c), Some(slot)) => if s1.dragging && mouse_up_matches_spec(c, slot, ev, data) {
                (s1, HookStepView::Complete(slot))
            } else {
                (s1, HookStepView::Pass)
            },
            _ => (s1, HookStepView::Pass),
        }
    } else if ev == WM_MOUSEWHEEL && s1.dragging {
        (s1, HookStepView::Wheel(wheel_trigger_spec(s1.left_pressed, data)))
    } else {
        (s1, HookStepView::Pass)
    }
}

/// Whether the keyboard binding of the active slot is fully held.
pub open spec fn active_binding_held(s: SessionView, c: Option<ConfigView>, keys: Set<u16>) -> bool {
    match (c, s.active_slot) {
        (Some(c), Some(slot)) => keyboard_trigger_active_spec(trigger_for_slot_spec(c, slot), keys),
        _ => false,
    }
}

/// One keyboard event; the held keys follow it.  Outside a gesture, a key
/// press that starts a slot's keyboard binding asks to start a gesture.
/// During a gesture, Escape cancels it; a press that makes the binding held
/// again while its release is pending resumes the gesture; a release that
/// leaves the keyboard binding no longer fully held makes the release
/// pending (the gesture ends only when `release_timer_spec` confirms it).
pub open spec fn key_step_spec(s: SessionView, c: Option<ConfigView>, ev: u32, vk: u16) -> (SessionView, HookStepView) {
    if ev == WM_KEYDOWN || ev == WM_SYSKEYDOWN {
        let keys = s.pressed_keys.insert(vk);
        let s1 = SessionView { pressed_keys: keys, ..s };
        if s.dragging {
            if vk == VK_ESCAPE {
                (cancelled(s1), HookStepView::Cancel)
            } else if s.release_pending && active_binding_held(s, c, keys) {
                (SessionView { release_pending: false, ..s1 }, HookStepView::Pass)
            } else {
                (s1, HookStepView::Pass)
            }
        } else {
            match c {
                Some(c) => match keyboard_down_slot_spec(c, vk, keys) {
                    Some(slot) => (s1, HookStepView::Start(slot)),
                    None => (s1, HookStepView::Pass),
                },
                None => (s1, HookStepView::Pass),
            }
        }
    } else if ev == WM_KEYUP || ev == WM_SYSKEYUP {
        let keys = s.pressed_keys.remove(vk);
        let s1 = SessionView { pressed_keys: keys, ..s };
        match (c, s.active_slot) {
            (Some(c), Some(slot)) => {
                let trigger = trigger_for_slot_spec(c, slot);
                if s.dragging && !s.release_pending && parse_keyboard_spec(trigger) is Some
                    && !keyboard_trigger_active_spec(trigger, keys) {
                    (SessionView { release_pending: true, ..s1 }, HookStepView::ReleasePending)
                } else {
                    (s1, HookStepView::Pass)
                }
            },
            _ => (s1, HookStepView::Pass),
        }
    } else {
        (s, HookStepView::Pass)
    }
}

/// The check made `elapsed_ms` milliseconds after a release became pending:
/// when the release is still pending and at least `RELEASE_CONFIRM_MS` have
/// passed, the gesture under the active slot ends.
pub open spec fn release_timer_spec(s: SessionView, elapsed_ms: u64) -> (SessionView, HookStepView) {
    match s.active_slot {
        Some(slot) => if s.dragging && s.release_pending && elapsed_ms >= RELEASE_CONFIRM_MS {
            (SessionView { release_pending: false, ..s }, HookStepView::Complete(slot))
        } else {
            (s, HookStepView::Pass)
        },
        None => (s, HookStepView::Pass),
    }
}

impl GestureSession {
    /// No gesture, nothing held.
    pub fn new() -> (s: Self)
        ensures
            !s@.dragging,
            !s@.left_pressed,
            !s@.release_pending,
            s@.active_slot is None,
            s@.trajectory.len() == 0,
            s@.pressed_keys == Set::<u16>::empty(),
    {
        GestureSession {
            dragging: false,
            left_pressed: false,
            release_pending: false,
            active_slot: None,
            trajectory: Vec::new(),
            pressed_keys: HashSet::new(),
        }
    }

    /// Decides what a mouse event means (see `mouse_step_spec`).
    pub fn on_mouse_event(&mut self, config: Option<&Config>, event_type: u32, mouse_data: u32, x: i32, y: i32) -> (step: HookStep)
        ensures
            (final(self)@, step@) == mouse_step_spec(
                old(self)@,
                opt_config_view(config),
                event_type,
                mouse_data,
                x,
                y,
            ),
    {
        if event_type == WM_LBUTTONDOWN {
            self.left_pressed = true;
        } else if event_type == WM_LBUTTONUP {
            self.left_pressed = false;
        }
        if event_type == WM_LBUTTONDOWN || event_type == WM_RBUTTONDOWN || event_type
            == WM_MBUTTONDOWN || event_type == WM_XBUTTONDOWN {
            match config {
                Some(c) => match trigger_slot_for_mouse_down(c, event_type, mouse_data) {
                    Some(slot) => HookStep::Start(slot),
                    None => HookStep::Pass,
                },
                None => HookStep::Pass,
            }
        } else if event_type == WM_MOUSEMOVE {
            if self.dragging {
                self.trajectory.push((x, y));
                HookStep::Moved
            } else {
                HookStep::Pass
            }
        } else if event_type == WM_LBUTTONUP || event_type == WM_RBUTTONUP || event_type
            == WM_MBUTTONUP || event_type == WM_XBUTTONUP {
            match (config, &self.active_slot) {
                (Some(c), Some(slot)) => {
                    if self.dragging && active_mouse_trigger_matches_up(
                        c,
                        slot.as_str(),
                        event_type,
                        mouse_data,
                    ) {
                        HookStep::Complete(slot.clone())
                    } else {
                        HookStep::Pass
                    }
                },
                _ => HookStep::Pass,
            }
        } else if event_type == WM_MOUSEWHEEL && self.dragging {
            HookStep::Wheel(wheel_trigger_name(self.left_pressed, mouse_data))
        } else {
            HookStep::Pass
        }
    }

    /// Decides what a keyboard event means (see `key_step_spec`).
    pub fn on_key_event(&mut self, config: Option<&Config>, event_type: u32, vk_code: u16) -> (step: HookStep)
        ensures
            (final(self)@, step@) == key_step_spec(
                old(self)@,
                opt_config_view(config),
                event_type,
                vk_code,
            ),
    {
        broadcast use vstd::std_specs::hash::group_hash_axioms;

        if event_type == WM_KEYDOWN || event_type == WM_SYSKEYDOWN {
            self.pressed_keys.insert(vk_code);
            if self.dragging {
                if vk_code == VK_ESCAPE {
                    self.cancel();
                    HookStep::Cancel
                } else {
                    if self.release_pending {
                        let held = match (config, &self.active_slot) {
                            (Some(c), Some(slot)) => keyboard_trigger_active(
                                trigger_button_for_slot(c, slot.as_str()),
                                &self.pressed_keys,
                            ),
                            _ => false,
                        };
                        if held {
                            self.release_pending = false;
                        }
                    }
                    HookStep::Pass
                }
            } else {
                match config {
                    Some(c) => match trigger_slot_for_keyboard_down(c, vk_code, &self.pressed_keys) {
                        Some(slot) => HookStep::Start(slot),
                        None => HookStep::Pass,
                    },
                    None => HookStep::Pass,
                }
            }
        } else if event_type == WM_KEYUP || event_type == WM_SYSKEYUP {
            self.pressed_keys.remove(&vk_code);
            let pending = match (config, &self.active_slot) {
                (Some(c), Some(slot)) => {
                    let trigger = trigger_button_for_slot(c, slot.as_str());
                    self.dragging && !self.release_pending
                        && crate::binding::parse_keyboard_trigger(trigger).is_some()
                        && !keyboard_trigger_active(trigger, &self.pressed_keys)
                },
                _ => false,
            };
            if pending {
                self.release_pending = true;
                HookStep::ReleasePending
            } else {
                HookStep::Pass
            }
        } else {
            HookStep::Pass
        }
    }

    /// The check made `elapsed_ms` milliseconds after a release became
    /// pending (see `release_timer_spec`).
    pub fn on_release_timer(&mut self, elapsed_ms: u64) -> (step: HookStep)
        ensures
            (final(self)@, step@) == release_timer_spec(old(self)@, elapsed_ms),
    {
        match &self.active_slot {
            Some(slot) => {
                if self.dragging && self.release_pending && elapsed_ms >= RELEASE_CONFIRM_MS {
                    let s = slot.clone();
                    self.release_pending = false;
                    HookStep::Complete(s)
                } else {
                    HookStep::Pass
                }
            },
            None => HookStep::Pass,
        }
    }

    /// Ends any gesture in progress or pending release without any action:
    /// the one teardown used by Escape, by switching gestures off and by
    /// removing the hooks.
    pub fn cancel(&mut self)
        ensures
            final(self)@ == cancelled(old(self)@),
    {
        self.dragging = false;
        self.release_pending = false;
        self.active_slot = None;
        self.trajectory = Vec::new();
        assert(self.trajectory@ =~= Seq::<(i32, i32)>::empty());
    }

    /// Starts a gesture under `slot` at the given point.
    pub fn begin(&mut self, slot: &str, x: i32, y: i32)
        ensures
            final(self)@ == (SessionView {
                dragging: true,
                release_pending: false,
                active_slot: Some(slot@),
                trajectory: seq![(x, y)],
                ..old(self)@
            }),
    {
        self.dragging = true;
        self.release_pending = false;
        self.active_slot = Some(string_from(slot));
        let mut t: Vec<(i32, i32)> = Vec::new();
        t.push((x, y));
        self.trajectory = t;
        assert(self.trajectory@ =~= seq![(x, y)]);
    }

    /// Ends the gesture: hands back its points and clears the session's
    /// gesture state.
    pub fn finish(&mut self) -> (points: Vec<(i32, i32)>)
        ensures
            points@ == old(self)@.trajectory,
            final(self)@ == cancelled(old(self)@),
    {
        self.dragging = false;
        self.release_pending = false;
        self.active_slot = None;
        let mut t: Vec<(i32, i32)> = Vec::new();
        std::mem::swap(&mut t, &mut self.trajectory);
        assert(self.trajectory@ =~= Seq::<(i32, i32)>::empty());
        t
    }

    /// Forgets the recorded points (after a wheel action ran).
    pub fn clear_trajectory(&mut self)
        ensures
            final(self)@ == (SessionView { trajectory: Seq::empty(), ..old(self)@ }),
    {
        self.trajectory = Vec::new();
        assert(self.trajectory@ =~= Seq::<(i32, i32)>::empty());
    }

    /// Forgets the held keys (when the hooks are removed).
    pub fn clear_pressed_keys(&mut self)
        ensures
            final(self)@ == (SessionView { pressed_keys: Set::empty(), ..old(self)@ }),
    {
        broadcast use vstd::std_specs::hash::group_hash_axioms;

        self.pressed_keys.clear();
    }
}

} // verus!

verus! {

// ---------------------------------------------------------------------------
// Laws of the gesture session
// ---------------------------------------------------------------------------

/// A session is dragging exactly when it has an active slot, and a release
/// can be pending only during a gesture.
pub open spec fn session_consistent(s: SessionView) -> bool {
    &&& s.dragging == (s.active_slot is Some)
    &&& s.release_pending ==> s.dragging
}

/// Every event keeps a consistent session consistent, no event starts a
/// gesture by itself (only `begin` does), and only a gesture in progress can
/// end or take wheel actions: a `Complete` step names the active slot of a
/// dragging session, and a `Wheel` step comes only while dragging.  So once a
/// gesture is cancelled, no `Complete` comes from it.
pub proof fn law_session_events(s: SessionView, c: Option<ConfigView>, ev: u32, data: u32, x: i32, y: i32, vk: u16, elapsed_ms: u64)
    requires
        session_consistent(s),
    ensures
        session_consistent(mouse_step_spec(s, c, ev, data, x, y).0),
        session_consistent(key_step_spec(s, c, ev, vk).0),
        session_consistent(release_timer_spec(s, elapsed_ms).0),
        mouse_step_spec(s, c, ev, data, x, y).1 matches HookStepView::Complete(slot) ==> s.dragging
            && s.active_slot == Some(slot),
        release_timer_spec(s, elapsed_ms).1 matches HookStepView::Complete(slot) ==> s.dragging
            && s.active_slot == Some(slot),
        mouse_step_spec(s, c, ev, data, x, y).1 matches HookStepView::Wheel(_) ==> s.dragging,
        mouse_step_spec(s, c, ev, data, x, y).0.dragging == s.dragging,
        key_step_spec(s, c, ev, vk).0.dragging ==> s.dragging,
        release_timer_spec(s, elapsed_ms).0.dragging == s.dragging,
{
}

/// Escape ends a gesture in progress, released or not, without any action:
/// the step is `Cancel` and the session is torn down, with no gesture, no
/// pending release and no recorded points.
pub proof fn law_escape_cancels(s: SessionView, c: Option<ConfigView>, ev: u32)
    requires
        s.dragging,
        ev == WM_KEYDOWN || ev == WM_SYSKEYDOWN,
    ensures
        key_step_spec(s, c, ev, VK_ESCAPE).1 == HookStepView::Cancel,
        !key_step_spec(s, c, ev, VK_ESCAPE).0.dragging,
        !key_step_spec(s, c, ev, VK_ESCAPE).0.release_pending,
        key_step_spec(s, c, ev, VK_ESCAPE).0.active_slot is None,
        key_step_spec(s, c, ev, VK_ESCAPE).0.trajectory.len() == 0,
{
}

/// A keyboard binding ends its gesture only through the release check: no
/// keyboard event ends a gesture itself, and the check ends it only when the
/// release is still pending after at least `RELEASE_CONFIRM_MS`.  A press that
/// makes the binding held again while the release is pending takes the
/// pending release back, so a later check ends nothing.
pub proof fn law_release_confirmed(s: SessionView, c: Option<ConfigView>, ev: u32, vk: u16, elapsed_ms: u64)
    ensures
        !(key_step_spec(s, c, ev, vk).1 is Complete),
        release_timer_spec(s, elapsed_ms).1 is Complete ==> s.release_pending && elapsed_ms
            >= RELEASE_CONFIRM_MS,
        (ev == WM_KEYDOWN || ev == WM_SYSKEYDOWN) && vk != VK_ESCAPE && s.dragging && s.release_pending
            && active_binding_held(s, c, s.pressed_keys.insert(vk)) ==> !(release_timer_spec(
            key_step_spec(s, c, ev, vk).0,
            elapsed_ms,
        ).1 is Complete),
{
}

/// The teardown is idempotent: tearing down a torn-down session changes
/// nothing.
pub proof fn law_teardown_idempotent(s: SessionView)
    ensures
        cancelled(cancelled(s)) == cancelled(s),
        session_consistent(cancelled(s)),
{
}

} // verus!

verus! {

// ---------------------------------------------------------------------------
// Laws of the X buttons and of pending releases
// ---------------------------------------------------------------------------

/// The high word of an X-button event's data names the button: 1 is X1 and 2
/// is X2.  So a slot bound to an X button starts and ends a gesture on that
/// button's press and release: with slot C bound to the button and slots A
/// and B not, the press starts slot C and the release ends it.
pub proof fn law_xbutton_words(data: u32, c: ConfigView)
    ensures
        xbutton_spec(data) == Some(MouseButton::X1) <==> (data >> 16u32) & 0xFFFFu32 == 1,
        xbutton_spec(data) == Some(MouseButton::X2) <==> (data >> 16u32) & 0xFFFFu32 == 2,
        (data >> 16u32) & 0xFFFFu32 == 2 && mouse_button_spec(c.trigger_c) == Some(MouseButton::X2)
            && mouse_button_spec(c.trigger_a) != Some(MouseButton::X2) && mouse_button_spec(
            c.trigger_b,
        ) != Some(MouseButton::X2) ==> mouse_down_slot_spec(c, WM_XBUTTONDOWN, data) == Some(
            "C"@,
        ) && mouse_up_matches_spec(c, "C"@, WM_XBUTTONUP, data),
        (data >> 16u32) & 0xFFFFu32 == 1 && mouse_button_spec(c.trigger_c) == Some(MouseButton::X1)
            && mouse_button_spec(c.trigger_a) != Some(MouseButton::X1) && mouse_button_spec(
            c.trigger_b,
        ) != Some(MouseButton::X1) ==> mouse_down_slot_spec(c, WM_XBUTTONDOWN, data) == Some(
            "C"@,
        ) && mouse_up_matches_spec(c, "C"@, WM_XBUTTONUP, data),
{
    reveal_strlit("A");
    reveal_strlit("B");
    reveal_strlit("C");
    assert("A"@[0] != "B"@[0] && "A"@[0] != "C"@[0] && "B"@[0] != "C"@[0]);
    assert(slot_spec("A"@) == "A"@);
    assert(slot_spec("B"@) == "B"@);
    assert(slot_spec("C"@) == "C"@);
    assert(trigger_for_slot_spec(c, "A"@) == c.trigger_a);
    assert(trigger_for_slot_spec(c, "B"@) == c.trigger_b);
    assert(trigger_for_slot_spec(c, "C"@) == c.trigger_c);
}

/// A pending release is taken back only by holding the binding again: a key
/// press other than Escape after which the active slot's keyboard binding is
/// still not fully held leaves the release pending, and a release check at
/// least `RELEASE_CONFIRM_MS` later ends the gesture under the active slot.
pub proof fn law_pending_release_kept(s: SessionView, c: Option<ConfigView>, ev: u32, vk: u16, slot: Seq<char>, elapsed_ms: u64)
    requires
        s.dragging,
        s.release_pending,
        s.active_slot == Some(slot),
        ev == WM_KEYDOWN || ev == WM_SYSKEYDOWN,
        vk != VK_ESCAPE,
        match c {
            Some(cv) => !keyboard_trigger_active_spec(
                trigger_for_slot_spec(cv, slot),
                s.pressed_keys.insert(vk),
            ),
            None => true,
        },
        elapsed_ms >= RELEASE_CONFIRM_MS,
    ensures
        key_step_spec(s, c, ev, vk).0.release_pending,
        key_step_spec(s, c, ev, vk).0.dragging,
        key_step_spec(s, c, ev, vk).1 == HookStepView::Pass,
        release_timer_spec(key_step_spec(s, c, ev, vk).0, elapsed_ms).1 == HookStepView::Complete(
            slot,
        ),
{
}

} // verus!

verus! {

/// The wheel trigger of a wheel event: the high word of its data, read as a
/// signed 16-bit delta, turns the wheel up when positive and down otherwise;
/// the name is `wheel_up` / `wheel_down`, with the prefix `leftclick_` while
/// the left button is held.
pub proof fn law_wheel_direction(left_pressed: bool, data: u32)
    ensures
        wheel_trigger_spec(left_pressed, data) == (if left_pressed {
            "leftclick_"@
        } else {
            Seq::<char>::empty()
        }) + "wheel_"@ + (if ((data >> 16u32) as u16 as i16) > 0 {
            "up"@
        } else {
            "down"@
        }),
{
    reveal_strlit("leftclick_");
    reveal_strlit("wheel_");
    reveal_strlit("up");
    reveal_strlit("down");
    reveal_strlit("wheel_up");
    reveal_strlit("wheel_down");
    reveal_strlit("leftclick_wheel_up");
    reveal_strlit("leftclick_wheel_down");
    let d = (data >> 16u32) & 0xFFFFu32;
    assert((1 <= d && d <= 0x7FFF) <==> ((data >> 16u32) as u16 as i16) > 0) by (bit_vector)
        requires
            d == (data >> 16u32) & 0xFFFFu32,
    ;
    assert(Seq::<char>::empty() + "wheel_"@ + "up"@ =~= "wheel_up"@);
    assert(Seq::<char>::empty() + "wheel_"@ + "down"@ =~= "wheel_down"@);
    assert("leftclick_"@ + "wheel_"@ + "up"@ =~= "leftclick_wheel_up"@);
    assert("leftclick_"@ + "wheel_"@ + "down"@ =~= "leftclick_wheel_down"@);
}

} // verus!
