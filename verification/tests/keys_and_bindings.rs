use open_mouse_gesture::binding::is_valid_trigger_binding;
use open_mouse_gesture::{
    display_key_for_code, keyboard_code_to_vk, normalize_trigger_binding, parse_keyboard_trigger,
};

#[test]
fn display_labels_for_letters_digits_and_function_keys() {
    assert_eq!(display_key_for_code("KeyK"), Some("K".to_string()));
    assert_eq!(display_key_for_code("Digit5"), Some("5".to_string()));
    assert_eq!(display_key_for_code("F12"), Some("F12".to_string()));
    assert_eq!(display_key_for_code("F24"), Some("F24".to_string()));
    assert_eq!(display_key_for_code("F25"), None);
    assert_eq!(display_key_for_code("F0"), None);
    assert_eq!(display_key_for_code("F"), None);
}

#[test]
fn display_labels_follow_integer_parsing_rules() {
    // an optional plus sign and leading zeros are accepted by the number parser
    assert_eq!(display_key_for_code("F+1"), Some("F+1".to_string()));
    assert_eq!(display_key_for_code("F007"), Some("F007".to_string()));
    assert_eq!(display_key_for_code("F-1"), None);
    assert_eq!(display_key_for_code("F300"), None);
}

#[test]
fn display_labels_for_numpad_and_named_keys() {
    assert_eq!(display_key_for_code("Numpad7"), Some("Num 7".to_string()));
    assert_eq!(display_key_for_code("NumpadX"), None);
    assert_eq!(display_key_for_code("NumpadAdd"), Some("Num +".to_string()));
    assert_eq!(display_key_for_code("NumpadEnter"), Some("Num Enter".to_string()));
    assert_eq!(display_key_for_code("ArrowUp"), Some("Up".to_string()));
    assert_eq!(display_key_for_code("Slash"), Some("/".to_string()));
    assert_eq!(display_key_for_code("Equal"), Some("=".to_string()));
    assert_eq!(display_key_for_code("Key"), None);
    assert_eq!(display_key_for_code("Key\u{e9}"), None);
    assert_eq!(display_key_for_code("Key1"), Some("1".to_string()));
    assert_eq!(display_key_for_code("Unknown"), None);
}

#[test]
fn virtual_key_codes_of_special_keys() {
    assert_eq!(keyboard_code_to_vk("F24"), Some(0x87));
    assert_eq!(keyboard_code_to_vk("F01"), Some(0x70));
    assert_eq!(keyboard_code_to_vk("F25"), None);
    assert_eq!(keyboard_code_to_vk("Numpad0"), Some(0x60));
    assert_eq!(keyboard_code_to_vk("Numpad9"), Some(0x69));
    assert_eq!(keyboard_code_to_vk("NumpadEnter"), Some(0x0D));
    assert_eq!(keyboard_code_to_vk("Enter"), Some(0x0D));
    assert_eq!(keyboard_code_to_vk("ScrollLock"), Some(0x91));
    assert_eq!(keyboard_code_to_vk("Semicolon"), Some(0xBA));
    assert_eq!(keyboard_code_to_vk("NumpadDivide"), Some(0x6F));
    assert_eq!(keyboard_code_to_vk("CapsLock"), Some(0x14));
}

#[test]
fn virtual_key_codes_need_uppercase_letters() {
    assert_eq!(keyboard_code_to_vk("KeyA"), Some(0x41));
    assert_eq!(keyboard_code_to_vk("Keya"), None);
    assert_eq!(keyboard_code_to_vk("DigitX"), None);
    assert_eq!(keyboard_code_to_vk("Digit0"), Some(0x30));
}

#[test]
fn keyboard_binding_tolerates_spaces_case_and_repeats() {
    let (mods, code) = parse_keyboard_trigger("  key: ctrl + SHIFT + F2 ").expect("parses");
    assert_eq!(mods, vec!["Ctrl".to_string(), "Shift".to_string()]);
    assert_eq!(code, "F2");

    let (mods, code) = parse_keyboard_trigger("key:Control+ctrl+KeyA").expect("parses");
    assert_eq!(mods, vec!["Ctrl".to_string()]);
    assert_eq!(code, "KeyA");

    let (mods, code) = parse_keyboard_trigger("key:Shift++F1").expect("parses");
    assert_eq!(mods, vec!["Shift".to_string()]);
    assert_eq!(code, "F1");

    let (mods, code) = parse_keyboard_trigger("key:Escape").expect("parses");
    assert!(mods.is_empty());
    assert_eq!(code, "Escape");
}

#[test]
fn keyboard_binding_rejects_bad_prefix_and_modifiers() {
    assert!(parse_keyboard_trigger("Key:F1").is_none());
    assert!(parse_keyboard_trigger("key:Win+F1").is_none());
    assert!(parse_keyboard_trigger("key:").is_none());
    assert!(parse_keyboard_trigger("key:+ +").is_none());
    assert!(parse_keyboard_trigger("mouse:right").is_none());
}

#[test]
fn mouse_bindings_are_trimmed_and_case_insensitive() {
    assert_eq!(normalize_trigger_binding(" Mouse:X2 ", "mouse:right"), "mouse:x2");
    assert_eq!(normalize_trigger_binding("MIDDLE", "mouse:right"), "mouse:middle");
    assert_eq!(normalize_trigger_binding("\tright\n", "mouse:x1"), "mouse:right");
}

#[test]
fn fallback_uses_default_in_canonical_or_given_form() {
    assert_eq!(normalize_trigger_binding("garbage", " RIGHT "), "mouse:right");
    assert_eq!(normalize_trigger_binding("garbage", "key:F1"), "key:F1");
    assert_eq!(normalize_trigger_binding("", "whatever"), "whatever");
}

#[test]
fn keyboard_bindings_get_canonical_text() {
    assert_eq!(normalize_trigger_binding("key: shift + ctrl + KeyK", "mouse:right"), "key:Ctrl+Shift+KeyK");
    assert_eq!(normalize_trigger_binding("key:F5", "mouse:right"), "key:F5");
    assert_eq!(normalize_trigger_binding("key:Alt+Alt+Tab", "mouse:right"), "key:Alt+Tab");
}

#[test]
fn normalizing_a_binding_twice_changes_nothing() {
    for value in [
        "right",
        " Mouse:X1",
        "key: alt + ctrl + Digit3",
        "key:Shift+Shift+F9",
        "garbage",
        "key:NotAKey",
    ] {
        let once = normalize_trigger_binding(value, "mouse:middle");
        let twice = normalize_trigger_binding(&once, "mouse:middle");
        assert_eq!(once, twice);
        assert!(is_valid_trigger_binding(&once));
    }
}

#[test]
fn binding_validity() {
    assert!(is_valid_trigger_binding("mouse:left"));
    assert!(is_valid_trigger_binding("x2"));
    assert!(is_valid_trigger_binding("key:Ctrl+F1"));
    assert!(!is_valid_trigger_binding("key:Ctrl"));
    assert!(!is_valid_trigger_binding("mouse:x3"));
}

#[test]
fn modifier_order_never_changes_the_normalized_binding() {
    let expected = "key:Ctrl+Alt+Shift+KeyQ";
    for text in [
        "key:Ctrl+Alt+Shift+KeyQ",
        "key:Shift+Alt+Ctrl+KeyQ",
        "key:Alt+Ctrl+Shift+KeyQ",
        "key:Shift+Ctrl+Alt+KeyQ",
    ] {
        assert_eq!(normalize_trigger_binding(text, "mouse:right"), expected);
    }
    assert_eq!(
        normalize_trigger_binding("key:Shift+Bogus+KeyQ", "mouse:right"),
        normalize_trigger_binding("key:Bogus+Shift+KeyQ", "mouse:right")
    );
}

#[test]
fn formatted_bindings_parse_back() {
    for (mods, code) in [
        (vec![], "F+5"),
        (vec!["Ctrl"], "KeyA"),
        (vec!["Alt", "Shift"], "NumpadAdd"),
        (vec!["Ctrl", "Alt", "Shift"], "F12"),
    ] {
        let mods: Vec<String> = mods.into_iter().map(String::from).collect();
        let text = open_mouse_gesture::binding::format_keyboard_trigger(&mods, &code.to_string());
        if code.contains('+') {
            assert_ne!(parse_keyboard_trigger(&text), Some((mods, code.to_string())));
        } else {
            assert_eq!(parse_keyboard_trigger(&text), Some((mods, code.to_string())));
        }
    }
}
