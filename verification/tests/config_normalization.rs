use open_mouse_gesture::config::{Action, ActionGroup, Config, GestureTemplate, ValidationError};

fn gesture_action(name: &str, slot: &str, gesture: &str) -> Action {
    let mut a = Action::default();
    a.name = name.to_string();
    a.trigger_slot = slot.to_string();
    a.gesture = gesture.to_string();
    a.action_type = "keystroke".to_string();
    a.keystroke = Some("C".to_string());
    a
}

fn group(id: &str, name: &str) -> ActionGroup {
    ActionGroup { id: id.to_string(), name: name.to_string() }
}

#[test]
fn action_normalization_fills_defaults_and_uppercases_slot() {
    let mut a = Action::default();
    a.trigger_type = String::new();
    a.trigger_slot = String::new();
    a.name = "  past ".to_string();
    a.group_id = "  g1 ".to_string();
    a.group = " Legacy ".to_string();
    let n = a.normalized();
    assert_eq!(n.trigger_type, "gesture");
    assert_eq!(n.trigger_slot, "A");
    assert_eq!(n.name, "paste");
    assert_eq!(n.group_id, "g1");
    assert_eq!(n.group, "Legacy");

    let mut b = Action::default();
    b.trigger_slot = "b".to_string();
    b.name = "pasted".to_string();
    let n = b.normalized();
    assert_eq!(n.trigger_slot, "B");
    assert_eq!(n.name, "pasted");
}

#[test]
fn wheel_action_keeps_empty_slot() {
    let mut a = Action::default();
    a.trigger_type = "wheel".to_string();
    a.trigger_slot = String::new();
    let n = a.normalized();
    assert_eq!(n.trigger_slot, "");
    assert_eq!(n.trigger_type, "wheel");
}

#[test]
fn default_config_is_valid_and_has_the_default_group() {
    let c = Config::default();
    assert_eq!(c.groups, vec![group("group-uncategorized", "未分類")]);
    assert!(c.validate().is_ok());
    assert_eq!(c.triggerAColor, "#FF4D4F");
    assert_eq!(c.triggerBColor, "#4C8DFF");
    assert_eq!(c.triggerCColor, "#22A06B");
}

#[test]
fn invalid_colors_fall_back_to_defaults() {
    let mut c = Config::default();
    c.triggerAColor = "red".to_string();
    c.triggerBColor = "#12345G".to_string();
    c.triggerCColor = "#abcdef".to_string();
    let n = c.normalized();
    assert_eq!(n.triggerAColor, "#FF4D4F");
    assert_eq!(n.triggerBColor, "#4C8DFF");
    assert_eq!(n.triggerCColor, "#abcdef");
}

#[test]
fn legacy_group_names_become_groups() {
    let mut c = Config::default();
    c.groups = vec![];
    let mut a = gesture_action("copy", "A", "right");
    a.group = "Browser".to_string();
    let mut b = gesture_action("paste", "A", "left");
    b.group = " Browser ".to_string();
    let d = gesture_action("undo", "A", "up");
    c.actions = vec![a, b, d];
    let n = c.normalized();
    assert_eq!(
        n.groups,
        vec![group("group-uncategorized", "未分類"), group("group-1", "Browser")]
    );
    assert_eq!(n.actions[0].group_id, "group-1");
    assert_eq!(n.actions[1].group_id, "group-1");
    assert_eq!(n.actions[2].group_id, "group-uncategorized");
    assert!(n.actions.iter().all(|a| a.group.is_empty()));
    assert!(n.validate().is_ok());
}

#[test]
fn group_ids_are_made_unique_and_names_deduplicated() {
    let mut c = Config::default();
    c.groups = vec![
        group(" tools ", " Tools "),
        group("tools", "Other"),
        group("", "Third"),
        group("group-1", "Tools"),
        group("x", "  "),
    ];
    let mut a = gesture_action("a", "A", "right");
    a.group_id = "group-1".to_string();
    c.actions = vec![a];
    let n = c.normalized();
    assert_eq!(
        n.groups,
        vec![
            group("tools", "Tools"),
            group("group-1", "Other"),
            group("group-2", "Third"),
            group("x", "未分類"),
        ]
    );
    // the default id is not taken and its name is, so no group is added
    assert_eq!(n.actions[0].group_id, "group-1");
    let twice = n.clone().normalized();
    assert_eq!(n, twice);
}

#[test]
fn action_without_known_group_goes_to_default() {
    let mut c = Config::default();
    let mut a = gesture_action("a", "C", "down");
    a.group_id = "missing".to_string();
    c.actions = vec![a];
    let n = c.normalized();
    assert_eq!(n.actions[0].group_id, "group-uncategorized");
    assert!(n.validate().is_ok());
}

#[test]
fn normalizing_a_rich_config_twice_changes_nothing() {
    let mut c = Config::default();
    c.triggerA = "key: shift + alt + KeyG".to_string();
    c.triggerB = "bogus".to_string();
    c.triggerC = "X2".to_string();
    c.groups = vec![group("", ""), group("g", "Games")];
    let mut a = gesture_action(" past ", "c", "left");
    a.group = "Work".to_string();
    let mut w = Action::default();
    w.trigger_type = "wheel".to_string();
    w.trigger_slot = String::new();
    w.wheel_trigger = Some("wheel_up".to_string());
    w.action_type = "url".to_string();
    w.url = Some("https://example.com".to_string());
    c.actions = vec![a, w];
    let once = c.normalized();
    assert_eq!(once.triggerA, "key:Alt+Shift+KeyG");
    assert_eq!(once.triggerB, "mouse:middle");
    assert_eq!(once.triggerC, "mouse:x2");
    let twice = once.clone().normalized();
    assert_eq!(once, twice);
    // The unnamed group took the default group's name, so the default group is
    // not added and an action without a group joins the group of that name.
    assert_eq!(once.groups[0].id, "group-1");
    assert_eq!(once.groups[0].name, "未分類");
    assert_eq!(once.actions[1].group_id, "group-1");
    assert!(once.validate().is_ok());
}

#[test]
fn actions_without_group_join_the_group_named_uncategorized() {
    let mut c = Config::default();
    c.groups = vec![group("x", "未分類")];
    c.actions = vec![Action::default()];
    let n = c.normalized();
    assert_eq!(n.groups, vec![group("x", "未分類")]);
    assert_eq!(n.actions[0].group_id, "x");
    assert!(n.groups.iter().any(|g| g.id == n.actions[0].group_id));
}

fn message_of(r: Result<(), ValidationError>) -> String {
    r.err().expect("should fail").message()
}

#[test]
fn validation_reports_trigger_and_color_problems() {
    let mut c = Config::default();
    c.triggerB = "key:Ctrl".to_string();
    assert_eq!(message_of(c.validate()), "invalid value: invalid triggerB: key:Ctrl");
    let mut c = Config::default();
    c.triggerCColor = "#12".to_string();
    assert_eq!(message_of(c.validate()), "invalid value: invalid triggerCColor: #12");
}

#[test]
fn validation_reports_group_problems() {
    let mut c = Config::default();
    c.groups = vec![];
    let e = c.validate().err().unwrap();
    assert!(matches!(e, ValidationError::MissingRequiredField(ref f) if f == "groups"));
    assert_eq!(e.message(), "missing required field: groups");

    let mut c = Config::default();
    c.groups = vec![group("a", "A"), group("  ", "B")];
    assert_eq!(message_of(c.validate()), "invalid value: groups[1] has empty id");

    let mut c = Config::default();
    c.groups = vec![group("a", "A"), group("b", "B"), group("a", "C")];
    assert_eq!(message_of(c.validate()), "invalid value: duplicate group id: a");
}

#[test]
fn validation_reports_action_problems_with_index() {
    let base = || {
        let mut a = gesture_action("a", "A", "right");
        a.group_id = "group-uncategorized".to_string();
        a
    };
    let mut c = Config::default();
    let mut bad = base();
    bad.trigger_type = "tap".to_string();
    c.actions = vec![base(), bad];
    assert_eq!(
        message_of(c.validate()),
        "invalid value: actions[1]: invalid value: trigger_type must be gesture or wheel: tap"
    );

    let mut bad = base();
    bad.action_type = "macro".to_string();
    c.actions = vec![bad];
    assert_eq!(
        message_of(c.validate()),
        "invalid value: actions[0]: invalid value: unsupported action_type: macro"
    );

    let mut bad = base();
    bad.group_id = " ".to_string();
    c.actions = vec![bad];
    assert_eq!(
        message_of(c.validate()),
        "invalid value: actions[0]: missing required field: group_id"
    );

    let mut bad = base();
    bad.group_id = "nope".to_string();
    c.actions = vec![bad];
    assert_eq!(message_of(c.validate()), "invalid value: actions[0]: invalid value: unknown group_id: nope");

    let mut bad = base();
    bad.gesture = String::new();
    c.actions = vec![bad];
    assert_eq!(message_of(c.validate()), "invalid value: actions[0]: missing required field: gesture");

    let mut bad = base();
    bad.trigger_slot = "D".to_string();
    c.actions = vec![bad];
    assert_eq!(message_of(c.validate()), "invalid value: actions[0]: invalid value: invalid trigger_slot: D");

    let mut bad = base();
    bad.trigger_type = "wheel".to_string();
    bad.wheel_trigger = Some("  ".to_string());
    c.actions = vec![bad];
    assert_eq!(message_of(c.validate()), "invalid value: actions[0]: missing required field: wheel_trigger");
}

#[test]
fn validation_error_messages() {
    assert_eq!(ValidationError::InvalidFormat("x".to_string()).message(), "invalid format: x");
    assert_eq!(ValidationError::InvalidValue("y".to_string()).message(), "invalid value: y");
    assert_eq!(
        ValidationError::MissingRequiredField("z".to_string()).message(),
        "missing required field: z"
    );
}

#[test]
fn gesture_template_validation() {
    let ok = GestureTemplate { name: "L".to_string(), points: vec![(0.0f64, 0.0f64)] };
    assert!(ok.validate().is_ok());
    let unnamed = GestureTemplate { name: String::new(), points: vec![(0.0f64, 0.0f64)] };
    assert_eq!(unnamed.validate().err().unwrap().message(), "missing required field: name");
    let empty: GestureTemplate<(f64, f64)> = GestureTemplate { name: "L".to_string(), points: vec![] };
    assert_eq!(empty.validate().err().unwrap().message(), "missing required field: points");
}

#[test]
fn ascii_slots_settle_under_uppercasing() {
    let mut c = open_mouse_gesture::Config::default();
    for slot in ["a", "B", "", "c"] {
        let mut a = open_mouse_gesture::Action::default();
        a.trigger_slot = slot.to_string();
        c.actions.push(a);
    }
    assert!(open_mouse_gesture::config::slots_case_settle(&c));
    let once = c.clone().normalized();
    assert_eq!(once.clone().normalized(), once);
}
