use blackwall_api::input::{Key, LogicalKey};

#[test]
fn escape_logical_key_is_escape() {
    let key = Key { logical: LogicalKey::Escape, scancode: 1, modifiers: 0 };
    assert!(key.is_escape());
}

#[test]
fn scancode_nine_is_escape_for_all_modifier_combinations() {
    for modifiers in 0u32..64 {
        let key = Key { logical: LogicalKey::Other(65), scancode: 9, modifiers };
        assert!(key.is_escape());
        let key = Key { logical: LogicalKey::Escape, scancode: 9, modifiers };
        assert!(key.is_escape());
    }
}

#[test]
fn ordinary_key_is_not_escape() {
    let key = Key { logical: LogicalKey::Other(65), scancode: 38, modifiers: 0 };
    assert!(!key.is_escape());
}

#[test]
fn is_escape_matches_its_formula() {
    let logicals = [LogicalKey::Escape, LogicalKey::Other(65), LogicalKey::Other(256)];
    let scancodes = [9, 38, 0, -1];
    let modifier_sets = [0u32, 1, 2, 4, 8, 63];
    for &logical in &logicals {
        for &scancode in &scancodes {
            for &modifiers in &modifier_sets {
                let key = Key { logical, scancode, modifiers };
                let expected = matches!(logical, LogicalKey::Escape) || scancode == 9;
                assert_eq!(key.is_escape(), expected);
            }
        }
    }
}
