use open_mouse_gesture::actions::{
    action_detail, action_label_lines, action_type_label, is_matching_action_key,
};
use open_mouse_gesture::commands::{
    add_action, delete_action, delete_gesture, save_gesture, update_action, update_gesture,
};
use open_mouse_gesture::config::{Action, Config, GestureTemplate};
use open_mouse_gesture::manager::{
    checked_config, checked_loaded_config, prepare_settings_import, validate_gesture_list,
    SettingsBundle,
};
use open_mouse_gesture::{
    action_key_for_action, color_for_trigger_slot, find_action_for_gesture, normalize_trigger_slot,
    trigger_button_for_slot,
};

fn gesture_action(name: &str, slot: &str, gesture: &str) -> Action {
    let mut a = Action::default();
    a.name = name.to_string();
    a.trigger_slot = slot.to_string();
    a.gesture = gesture.to_string();
    a.action_type = "keystroke".to_string();
    a.keystroke = Some("C".to_string());
    a.group_id = "group-uncategorized".to_string();
    a
}

fn wheel_action(trigger: &str) -> Action {
    let mut a = Action::default();
    a.trigger_type = "wheel".to_string();
    a.trigger_slot = String::new();
    a.wheel_trigger = Some(trigger.to_string());
    a.action_type = "url".to_string();
    a.url = Some("https://example.com".to_string());
    a.group_id = "group-uncategorized".to_string();
    a
}

#[test]
fn slot_names_map_to_a_b_c() {
    assert_eq!(normalize_trigger_slot("B"), "B");
    assert_eq!(normalize_trigger_slot("C"), "C");
    assert_eq!(normalize_trigger_slot("A"), "A");
    assert_eq!(normalize_trigger_slot("b"), "A");
    assert_eq!(normalize_trigger_slot(""), "A");
}

#[test]
fn slot_colors_and_bindings() {
    let c = Config::default();
    assert_eq!(color_for_trigger_slot(&c, "B"), "#4C8DFF");
    assert_eq!(color_for_trigger_slot(&c, "zzz"), "#FF4D4F");
    assert_eq!(trigger_button_for_slot(&c, "C"), "mouse:x1");
    assert_eq!(trigger_button_for_slot(&c, "A"), "mouse:right");
}

#[test]
fn action_keys() {
    assert_eq!(action_key_for_action(&gesture_action("x", "b", "left")), "gesture:A:left");
    assert_eq!(action_key_for_action(&gesture_action("x", "C", "up")), "gesture:C:up");
    assert_eq!(action_key_for_action(&wheel_action("wheel_up")), "wheel:wheel_up");
    let mut w = wheel_action("x");
    w.wheel_trigger = None;
    assert_eq!(action_key_for_action(&w), "wheel:");
    assert!(is_matching_action_key(&wheel_action("wheel_down"), "wheel:wheel_down"));
    assert!(!is_matching_action_key(&wheel_action("wheel_down"), "wheel:wheel_up"));
}

#[test]
fn first_matching_gesture_action_wins() {
    let mut c = Config::default();
    let mut untyped = gesture_action("second", "B", "left");
    untyped.trigger_type = String::new();
    c.actions = vec![
        wheel_action("wheel_up"),
        gesture_action("first", "A", "right"),
        untyped,
        gesture_action("third", "B", "left"),
    ];
    assert_eq!(find_action_for_gesture(&c, "A", "right").unwrap().name, "first");
    assert_eq!(find_action_for_gesture(&c, "x", "right").unwrap().name, "first");
    assert_eq!(find_action_for_gesture(&c, "B", "left").unwrap().name, "second");
    assert!(find_action_for_gesture(&c, "C", "left").is_none());
}

#[test]
fn action_labels_and_details() {
    assert_eq!(action_type_label("keystroke"), "ホットキー");
    assert_eq!(action_type_label("window_operation"), "ウィンドウ操作");
    assert_eq!(action_type_label("other"), "アクション");

    let mut a = gesture_action("", "A", "right");
    a.modifiers = Some(vec![" Ctrl ".to_string(), " ".to_string(), "Shift".to_string()]);
    a.keystroke = Some(" T ".to_string());
    assert_eq!(action_detail(&a), Some("Ctrl+Shift+T".to_string()));
    assert_eq!(action_label_lines(&a), ("ホットキー".to_string(), Some("Ctrl+Shift+T".to_string())));

    a.name = " Ctrl+Shift+T ".to_string();
    assert_eq!(action_label_lines(&a), ("Ctrl+Shift+T".to_string(), None));
    a.name = "Reopen tab".to_string();
    assert_eq!(action_label_lines(&a), ("Reopen tab".to_string(), Some("Ctrl+Shift+T".to_string())));

    a.keystroke = Some("  ".to_string());
    assert_eq!(action_detail(&a), None);

    let mut w = gesture_action("", "A", "up");
    w.action_type = "window_operation".to_string();
    w.operation = Some("maximize".to_string());
    assert_eq!(action_detail(&w), Some("最大化".to_string()));
    w.operation = Some("restore".to_string());
    assert_eq!(action_detail(&w), None);

    let mut u = gesture_action("", "A", "up");
    u.action_type = "url".to_string();
    u.url = Some(" https://x ".to_string());
    assert_eq!(action_detail(&u), Some("https://x".to_string()));
}

#[test]
fn adding_actions_refuses_taken_triggers() {
    let mut c = Config::default();
    assert!(add_action(&mut c, gesture_action("a", "A", "right")).is_ok());
    assert!(add_action(&mut c, wheel_action("wheel_up")).is_ok());
    assert_eq!(c.actions.len(), 2);
    let e = add_action(&mut c, gesture_action("b", "x", "right")).unwrap_err();
    assert_eq!(e, "Action for trigger slot 'A' and gesture 'right' already exists");
    let e = add_action(&mut c, wheel_action("wheel_up")).unwrap_err();
    assert_eq!(e, "Action for wheel trigger 'Some(\"wheel_up\")' already exists");
    assert_eq!(c.actions.len(), 2);
    assert!(add_action(&mut c, gesture_action("c", "B", "right")).is_ok());
}

#[test]
fn replacing_and_removing_actions_by_key() {
    let mut c = Config::default();
    c.actions = vec![gesture_action("a", "A", "right"), wheel_action("wheel_up"), gesture_action("b", "A", "right")];
    assert!(update_action(&mut c, "gesture:A:right", gesture_action("new", "A", "right")).is_ok());
    assert_eq!(c.actions[0].name, "new");
    assert_eq!(c.actions[2].name, "b");
    assert_eq!(update_action(&mut c, "gesture:C:up", gesture_action("z", "C", "up")).unwrap_err(), "Action 'gesture:C:up' not found");
    delete_action(&mut c, "gesture:A:right");
    assert_eq!(c.actions.len(), 1);
    assert_eq!(c.actions[0].trigger_type, "wheel");
}

#[test]
fn gesture_template_list_edits() {
    let mut gs: Vec<GestureTemplate<(f64, f64)>> = Vec::new();
    assert!(save_gesture(&mut gs, "L".to_string(), vec![(0.0, 0.0), (0.0, 1.0)]).is_ok());
    assert_eq!(save_gesture(&mut gs, "L".to_string(), vec![(1.0, 1.0)]).unwrap_err(), "Gesture 'L' already exists");
    assert!(save_gesture(&mut gs, "V".to_string(), vec![(1.0, 1.0)]).is_ok());
    assert_eq!(update_gesture(&mut gs, "L".to_string(), "V".to_string(), vec![]).unwrap_err(), "Gesture 'V' already exists");
    assert_eq!(update_gesture(&mut gs, "Z".to_string(), "Y".to_string(), vec![]).unwrap_err(), "Gesture 'Z' not found");
    assert!(update_gesture(&mut gs, "L".to_string(), "L2".to_string(), vec![(2.0, 2.0)]).is_ok());
    assert_eq!(gs[0].name, "L2");
    assert_eq!(gs[0].points, vec![(2.0, 2.0)]);
    assert!(update_gesture(&mut gs, "V".to_string(), "V".to_string(), vec![(3.0, 3.0)]).is_ok());
    delete_gesture(&mut gs, &"L2".to_string());
    assert_eq!(gs.len(), 1);
    assert_eq!(gs[0].name, "V");
}

#[test]
fn gesture_lists_report_the_first_invalid_template() {
    let gs = vec![
        GestureTemplate { name: "A".to_string(), points: vec![(0.0f64, 0.0f64)] },
        GestureTemplate { name: "B".to_string(), points: vec![] },
        GestureTemplate { name: String::new(), points: vec![] },
    ];
    assert_eq!(
        validate_gesture_list(&gs, "gestures.json validation error at index ", ": ").unwrap_err(),
        "gestures.json validation error at index 1: missing required field: points"
    );
    assert!(validate_gesture_list(&gs[..1].to_vec(), "p", "i").is_ok());
}

#[test]
fn loaded_configs_are_normalized_and_flagged_when_changed() {
    let c = Config::default();
    let (n, changed) = checked_loaded_config(&c).unwrap();
    assert!(!changed);
    assert_eq!(n, c);

    let mut legacy = Config::default();
    legacy.triggerA = "right".to_string();
    let (n, changed) = checked_loaded_config(&legacy).unwrap();
    assert!(changed);
    assert_eq!(n.triggerA, "mouse:right");

    let mut broken = Config::default();
    let mut a = gesture_action("a", "A", "right");
    a.action_type = "nothing".to_string();
    broken.actions = vec![a];
    assert_eq!(
        checked_loaded_config(&broken).unwrap_err(),
        "config.json validation error: invalid value: actions[0]: invalid value: unsupported action_type: nothing"
    );
}

#[test]
fn settings_import_checks() {
    let bundle = |version: u32, points: Vec<(f64, f64)>| SettingsBundle {
        formatVersion: version,
        appName: "GestureHotkeyApp".to_string(),
        exportedAt: "0".to_string(),
        config: Config::default(),
        gestures: vec![GestureTemplate { name: "L".to_string(), points }],
    };
    assert_eq!(
        prepare_settings_import(bundle(0, vec![(0.0, 0.0)])).err().unwrap(),
        "Unsupported settings bundle formatVersion"
    );
    assert_eq!(
        prepare_settings_import(bundle(1, vec![])).err().unwrap(),
        "settings bundle gestures[0] validation error: missing required field: points"
    );
    let (c, gs) = prepare_settings_import(bundle(1, vec![(1.0, 2.0)])).ok().unwrap();
    assert_eq!(c, Config::default());
    assert_eq!(gs.len(), 1);
}

#[test]
fn list_edits_keep_triggers_and_names_distinct() {
    let mut c = Config::default();
    assert!(add_action(&mut c, gesture_action("a", "A", "up")).is_ok());
    assert!(add_action(&mut c, gesture_action("b", "B", "up")).is_ok());
    assert!(add_action(&mut c, gesture_action("c", "mouse:middle", "up")).is_err());
    assert!(add_action(&mut c, wheel_action("wheel_down")).is_ok());
    assert!(add_action(&mut c, wheel_action("wheel_down")).is_err());
    assert_eq!(c.actions.len(), 3);
    delete_action(&mut c, "wheel:wheel_down");
    assert!(c.actions.iter().all(|a| !is_matching_action_key(a, "wheel:wheel_down")));
    assert_eq!(c.actions.len(), 2);

    let mut gs: Vec<GestureTemplate<(f64, f64)>> = Vec::new();
    for name in ["a", "b", "a", "c", "b"] {
        let _ = save_gesture(&mut gs, name.to_string(), vec![(0.0, 0.0)]);
    }
    let names: Vec<&str> = gs.iter().map(|g| g.name.as_str()).collect();
    assert_eq!(names, vec!["a", "b", "c"]);
    assert!(update_gesture(&mut gs, "c".to_string(), "a".to_string(), vec![]).is_err());
    assert!(update_gesture(&mut gs, "c".to_string(), "d".to_string(), vec![]).is_ok());
    let names: Vec<&str> = gs.iter().map(|g| g.name.as_str()).collect();
    assert_eq!(names, vec!["a", "b", "d"]);
}

#[test]
fn saved_configs_load_back_unchanged() {
    let mut c = Config::default();
    c.triggerA = " key:shift+ctrl+KeyA ".to_string();
    c.triggerBColor = "bad".to_string();
    let mut a = gesture_action("a", "b", "left");
    a.keystroke = Some("Ctrl+C".to_string());
    c.actions = vec![a];
    let saved = checked_config(&c, "config.json validation error: ").unwrap();
    assert_eq!(saved.triggerA, "key:Ctrl+Shift+KeyA");
    let (loaded, changed) = checked_loaded_config(&saved).unwrap();
    assert!(!changed);
    assert_eq!(loaded, saved);
}
