use std::collections::HashSet;

use open_mouse_gesture::config::{Action, Config};
use open_mouse_gesture::hook::{
    find_wheel_action, gesture_outcome, is_ignored_exe, preview_step, GestureOutcome, PreviewStep, keyboard_trigger_active, keyboard_trigger_starts_on_vk,
    passes_right_click, preview_due, trigger_slot_for_keyboard_down, trigger_slot_for_mouse_down,
    wheel_trigger_name, GestureSession, HookStep, RELEASE_CONFIRM_MS, VK_ESCAPE, WM_KEYDOWN, WM_KEYUP, WM_LBUTTONDOWN,
    WM_LBUTTONUP, WM_MBUTTONDOWN, WM_MOUSEMOVE, WM_MOUSEWHEEL, WM_RBUTTONDOWN, WM_RBUTTONUP, WM_XBUTTONDOWN,
};

#[test]
fn earlier_slot_wins_when_bindings_repeat() {
    let mut c = Config::default();
    c.triggerB = "mouse:right".to_string();
    assert_eq!(trigger_slot_for_mouse_down(&c, WM_RBUTTONDOWN, 0), Some("A"));
    assert_eq!(trigger_slot_for_mouse_down(&c, WM_MBUTTONDOWN, 0), None);
    assert_eq!(trigger_slot_for_mouse_down(&c, WM_XBUTTONDOWN, 1 << 16), Some("C"));
    assert_eq!(trigger_slot_for_mouse_down(&c, WM_XBUTTONDOWN, 2 << 16), None);
    assert_eq!(trigger_slot_for_mouse_down(&c, WM_LBUTTONDOWN, 0), None);
}

#[test]
fn keyboard_triggers_follow_held_keys() {
    let mut c = Config::default();
    c.triggerB = "key:Ctrl+KeyG".to_string();
    let held: HashSet<u16> = [0xA2u16, 0x47].into_iter().collect();
    assert!(keyboard_trigger_starts_on_vk("key:Ctrl+KeyG", 0x47, &held));
    assert!(!keyboard_trigger_starts_on_vk("key:Ctrl+KeyG", 0x47, &HashSet::from([0x47u16])));
    assert_eq!(trigger_slot_for_keyboard_down(&c, 0x47, &held), Some("B"));
    assert!(keyboard_trigger_active("key:Ctrl+KeyG", &held));
    assert!(!keyboard_trigger_active("key:Ctrl+KeyG", &HashSet::from([0xA2u16])));
}

#[test]
fn wheel_triggers_and_actions() {
    assert_eq!(wheel_trigger_name(false, 120 << 16), "wheel_up");
    assert_eq!(wheel_trigger_name(false, 0xFF88 << 16), "wheel_down");
    assert_eq!(wheel_trigger_name(true, 120 << 16), "leftclick_wheel_up");
    assert_eq!(wheel_trigger_name(true, 0), "leftclick_wheel_down");
    let mut c = Config::default();
    let mut w = Action::default();
    w.trigger_type = "wheel".to_string();
    w.wheel_trigger = Some("wheel_down".to_string());
    w.name = "scroll".to_string();
    c.actions = vec![w];
    assert_eq!(find_wheel_action(&c, "wheel_down").unwrap().name, "scroll");
    assert!(find_wheel_action(&c, "wheel_up").is_none());
}

#[test]
fn ignore_lists_compare_in_lowercase() {
    let list = vec!["Chrome.EXE".to_string(), "code.exe".to_string()];
    assert!(is_ignored_exe(&list, "chrome.exe"));
    assert!(!is_ignored_exe(&list, "Chrome.EXE"));
    assert!(!is_ignored_exe(&list, "notepad.exe"));
}

#[test]
fn short_right_clicks_pass_through() {
    let c = Config::default();
    assert!(passes_right_click(&c, "A", false, 3));
    assert!(!passes_right_click(&c, "A", true, 3));
    assert!(!passes_right_click(&c, "A", false, 9));
    assert!(!passes_right_click(&c, "B", false, 3));
    assert!(preview_due(None));
    assert!(preview_due(Some(16)));
    assert!(!preview_due(Some(15)));
}

#[test]
fn mouse_gesture_session_flow() {
    let c = Config::default();
    let mut s = GestureSession::new();
    match s.on_mouse_event(Some(&c), WM_RBUTTONDOWN, 0, 10, 20) {
        HookStep::Start(slot) => {
            assert_eq!(slot, "A");
            s.begin(slot, 10, 20);
        }
        _ => panic!("expected a start"),
    }
    assert!(matches!(s.on_mouse_event(Some(&c), WM_MOUSEMOVE, 0, 11, 21), HookStep::Moved));
    match s.on_mouse_event(Some(&c), WM_MOUSEWHEEL, 120 << 16, 0, 0) {
        HookStep::Wheel(t) => assert_eq!(t, "wheel_up"),
        _ => panic!("expected a wheel step"),
    }
    match s.on_mouse_event(Some(&c), WM_RBUTTONUP, 0, 11, 21) {
        HookStep::Complete(slot) => assert_eq!(slot, "A"),
        _ => panic!("expected completion"),
    }
    let points = s.finish();
    assert_eq!(points, vec![(10, 20), (11, 21)]);
    assert!(!s.dragging);
    assert!(matches!(s.on_mouse_event(Some(&c), WM_MOUSEMOVE, 0, 1, 1), HookStep::Pass));
    assert!(matches!(s.on_mouse_event(None, WM_RBUTTONDOWN, 0, 1, 1), HookStep::Pass));
}

#[test]
fn keyboard_gesture_session_flow() {
    let mut c = Config::default();
    c.triggerA = "key:Shift+F1".to_string();
    let mut s = GestureSession::new();
    assert!(matches!(s.on_key_event(Some(&c), WM_KEYDOWN, 0xA0), HookStep::Pass));
    match s.on_key_event(Some(&c), WM_KEYDOWN, 0x70) {
        HookStep::Start(slot) => {
            assert_eq!(slot, "A");
            s.begin(slot, 0, 0);
        }
        _ => panic!("expected a start"),
    }
    assert!(matches!(s.on_key_event(Some(&c), WM_KEYDOWN, 0x41), HookStep::Pass));
    assert!(matches!(s.on_key_event(Some(&c), WM_KEYUP, 0xA0), HookStep::ReleasePending));
    assert!(s.release_pending);
    assert_eq!(s.pressed_keys, HashSet::from([0x70u16, 0x41]));
    assert!(matches!(s.on_release_timer(119), HookStep::Pass));
    match s.on_release_timer(120) {
        HookStep::Complete(slot) => assert_eq!(slot, "A"),
        _ => panic!("expected completion"),
    }
    s.finish();
    s.clear_pressed_keys();
    assert!(s.pressed_keys.is_empty());
}

fn gesture_config() -> Config {
    let mut c = Config::default();
    let mut skip = Action::default();
    skip.name = "wrong slot".to_string();
    skip.gesture = "circle".to_string();
    skip.trigger_slot = "B".to_string();
    let mut first = Action::default();
    first.name = "first".to_string();
    first.gesture = "circle".to_string();
    first.ignore_exe = Some(vec!["Game.EXE".to_string()]);
    let mut second = Action::default();
    second.name = "second".to_string();
    second.gesture = "circle".to_string();
    c.actions = vec![skip, first, second];
    c
}

#[test]
fn gesture_end_runs_the_first_action_of_the_slot() {
    let c = gesture_config();
    let points = vec![(5, 6), (7, 8)];
    assert!(matches!(
        gesture_outcome(&c, "A", &points, true, Some("circle"), Some("notepad.exe")),
        GestureOutcome::Run(1)
    ));
    assert!(matches!(
        gesture_outcome(&c, "A", &points, true, Some("circle"), None),
        GestureOutcome::Run(1)
    ));
    assert!(matches!(
        gesture_outcome(&c, "B", &points, true, Some("circle"), None),
        GestureOutcome::Run(0)
    ));
    assert!(matches!(
        gesture_outcome(&c, "A", &points, true, Some("square"), None),
        GestureOutcome::Nothing
    ));
}

#[test]
fn gesture_end_respects_the_action_ignore_list() {
    let c = gesture_config();
    let points = vec![(5, 6), (7, 8)];
    assert!(matches!(
        gesture_outcome(&c, "A", &points, true, Some("circle"), Some("game.exe")),
        GestureOutcome::Ignored
    ));
}

#[test]
fn gesture_end_without_match_passes_short_right_clicks() {
    let c = gesture_config();
    let short = vec![(5, 6), (7, 8)];
    assert!(matches!(
        gesture_outcome(&c, "A", &short, true, None, None),
        GestureOutcome::RightClick(5, 6)
    ));
    let long: Vec<(i32, i32)> = (0..9).map(|i| (i, i)).collect();
    assert!(matches!(gesture_outcome(&c, "A", &long, true, None, None), GestureOutcome::Nothing));
    assert!(matches!(gesture_outcome(&c, "B", &short, true, None, None), GestureOutcome::Nothing));
    assert!(matches!(
        gesture_outcome(&c, "A", &short, false, Some("circle"), None),
        GestureOutcome::Nothing
    ));
    assert!(matches!(
        gesture_outcome(&c, "A", &Vec::new(), true, Some("circle"), None),
        GestureOutcome::Nothing
    ));
}

#[test]
fn preview_follows_the_recognized_action() {
    let c = gesture_config();
    assert!(matches!(preview_step(Some(&c), Some("A"), 6, false, Some("circle")), PreviewStep::Show(1)));
    assert!(matches!(preview_step(Some(&c), Some("A"), 5, true, Some("circle")), PreviewStep::Clear));
    assert!(matches!(preview_step(Some(&c), Some("A"), 5, false, Some("circle")), PreviewStep::Keep));
    assert!(matches!(preview_step(Some(&c), None, 10, true, Some("circle")), PreviewStep::Clear));
    assert!(matches!(preview_step(None, Some("A"), 10, false, Some("circle")), PreviewStep::Clear));
    assert!(matches!(preview_step(Some(&c), Some("A"), 10, true, None), PreviewStep::Clear));
    assert!(matches!(preview_step(Some(&c), Some("A"), 10, false, Some("square")), PreviewStep::Keep));
}

#[test]
fn left_button_never_starts_a_gesture() {
    let mut c = Config::default();
    c.triggerA = "mouse:left".to_string();
    c.triggerB = "mouse:left".to_string();
    assert_eq!(trigger_slot_for_mouse_down(&c, WM_LBUTTONDOWN, 0), None);
    let mut s = GestureSession::new();
    assert!(matches!(s.on_mouse_event(Some(&c), WM_LBUTTONDOWN, 0, 1, 1), HookStep::Pass));
    assert!(s.left_pressed);
    assert!(matches!(s.on_mouse_event(Some(&c), WM_LBUTTONUP, 0, 1, 1), HookStep::Pass));
    assert!(!s.left_pressed);
}

#[test]
fn escape_cancels_active_and_pending_gestures() {
    let c = Config::default();
    let mut s = GestureSession::new();
    s.begin("A", 1, 2);
    assert!(matches!(s.on_mouse_event(Some(&c), WM_MOUSEMOVE, 0, 3, 4), HookStep::Moved));
    assert!(matches!(s.on_key_event(Some(&c), WM_KEYDOWN, VK_ESCAPE), HookStep::Cancel));
    assert!(!s.dragging);
    assert!(s.active_slot.is_none());
    assert!(s.trajectory.is_empty());
    assert!(matches!(s.on_mouse_event(Some(&c), WM_RBUTTONUP, 0, 3, 4), HookStep::Pass));

    let mut k = Config::default();
    k.triggerA = "key:KeyG".to_string();
    let mut s = GestureSession::new();
    assert!(matches!(s.on_key_event(Some(&k), WM_KEYDOWN, 0x47), HookStep::Start("A")));
    s.begin("A", 0, 0);
    assert!(matches!(s.on_key_event(Some(&k), WM_KEYUP, 0x47), HookStep::ReleasePending));
    assert!(matches!(s.on_key_event(Some(&k), WM_KEYDOWN, VK_ESCAPE), HookStep::Cancel));
    assert!(!s.release_pending);
    assert!(matches!(s.on_release_timer(RELEASE_CONFIRM_MS), HookStep::Pass));
}

#[test]
fn a_quick_re_press_keeps_the_gesture_going() {
    let mut k = Config::default();
    k.triggerB = "key:KeyG".to_string();
    let mut s = GestureSession::new();
    assert!(matches!(s.on_key_event(Some(&k), WM_KEYDOWN, 0x47), HookStep::Start("B")));
    s.begin("B", 0, 0);
    assert!(matches!(s.on_key_event(Some(&k), WM_KEYUP, 0x47), HookStep::ReleasePending));
    assert!(matches!(s.on_key_event(Some(&k), WM_KEYDOWN, 0x47), HookStep::Pass));
    assert!(!s.release_pending);
    assert!(s.dragging);
    assert!(matches!(s.on_release_timer(500), HookStep::Pass));
    assert!(matches!(s.on_key_event(Some(&k), WM_KEYUP, 0x47), HookStep::ReleasePending));
    match s.on_release_timer(130) {
        HookStep::Complete(slot) => assert_eq!(slot, "B"),
        _ => panic!("expected completion"),
    }
    s.cancel();
    s.cancel();
    assert!(!s.dragging && s.active_slot.is_none());
}
