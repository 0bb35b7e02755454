use commandbar_core::shortcut::{
    default_shortcut, parse_key, parse_modifiers, parse_shortcut, Code, Modifiers, Shortcut,
};

fn names(given: &[&str]) -> Vec<String> {
    given.iter().map(|s| s.to_string()).collect()
}

fn none() -> Modifiers {
    Modifiers { control: false, alt: false, shift: false, super_key: false }
}

#[test]
fn modifier_names_are_known_in_any_case() {
    assert_eq!(parse_modifiers(&names(&["control"])), Some(Modifiers { control: true, ..none() }));
    assert_eq!(parse_modifiers(&names(&["CTRL"])), Some(Modifiers { control: true, ..none() }));
    assert_eq!(parse_modifiers(&names(&["Alt"])), Some(Modifiers { alt: true, ..none() }));
    assert_eq!(parse_modifiers(&names(&["shift"])), Some(Modifiers { shift: true, ..none() }));
    assert_eq!(parse_modifiers(&names(&["Meta"])), Some(Modifiers { super_key: true, ..none() }));
    assert_eq!(parse_modifiers(&names(&["SUPER"])), Some(Modifiers { super_key: true, ..none() }));
}

#[test]
fn modifiers_add_up() {
    assert_eq!(
        parse_modifiers(&names(&["ctrl", "shift", "ctrl"])),
        Some(Modifiers { control: true, shift: true, ..none() })
    );
    assert_eq!(
        parse_modifiers(&names(&["alt", "hyper", "meta", "control", "Shift"])),
        Some(Modifiers { control: true, alt: true, shift: true, super_key: true })
    );
}

#[test]
fn unknown_modifier_names_count_for_nothing() {
    assert_eq!(parse_modifiers(&names(&[])), None);
    assert_eq!(parse_modifiers(&names(&["hyper", "", " ctrl"])), None);
    assert_eq!(
        parse_modifiers(&names(&["hyper", "alt"])),
        Some(Modifiers { alt: true, ..none() })
    );
}

#[test]
fn letters_and_digits_are_keys() {
    assert_eq!(parse_key("a"), Some(Code::Letter('A')));
    assert_eq!(parse_key("Z"), Some(Code::Letter('Z')));
    assert_eq!(parse_key("k"), Some(Code::Letter('K')));
    assert_eq!(parse_key("0"), Some(Code::Digit('0')));
    assert_eq!(parse_key("9"), Some(Code::Digit('9')));
}

#[test]
fn other_names_are_no_keys() {
    for key in ["", "ab", "F1", "é", "-", " ", "10", "ß"] {
        assert_eq!(parse_key(key), None, "{:?}", key);
    }
}

#[test]
fn upper_case_is_that_of_unicode() {
    // The long s has the capital S.
    assert_eq!(parse_key("\u{017F}"), Some(Code::Letter('S')));
}

#[test]
fn shortcut_is_made_of_modifiers_and_key() {
    assert_eq!(
        parse_shortcut(&names(&["ctrl", "shift"]), "p"),
        Ok(Shortcut {
            modifiers: Some(Modifiers { control: true, shift: true, ..none() }),
            code: Code::Letter('P'),
        })
    );
    assert_eq!(
        parse_shortcut(&names(&[]), "7"),
        Ok(Shortcut { modifiers: None, code: Code::Digit('7') })
    );
}

#[test]
fn unsupported_key_is_reported() {
    assert_eq!(
        parse_shortcut(&names(&["ctrl"]), "F12"),
        Err("Unsupported key: F12".to_string())
    );
    assert_eq!(parse_shortcut(&names(&[]), ""), Err("Unsupported key: ".to_string()));
}

#[test]
fn default_shortcut_is_control_k() {
    assert_eq!(
        default_shortcut(),
        Shortcut {
            modifiers: Some(Modifiers { control: true, ..none() }),
            code: Code::Letter('K'),
        }
    );
}
