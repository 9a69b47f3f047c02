use ekanban::hotkey::{key_code, KeyModifiers, Keystroke, Shortcut, ShortcutError};
use global_hotkey::hotkey::Code;

fn shortcut(source: &str) -> Shortcut {
    Shortcut::parse(source).expect("should parse")
}

#[test]
fn round_trips_a_shortcut_through_its_stored_form() {
    for source in ["ctrl-alt-shift-cmd-n", "cmd-n", "ctrl-shift-f1", "alt-space"] {
        let parsed = shortcut(source);
        assert_eq!(parsed.to_text(), source);
        assert_eq!(shortcut(&parsed.to_text()), parsed);
    }
}

#[test]
fn normalizes_the_order_of_the_modifiers() {
    assert_eq!(shortcut("cmd-shift-n"), shortcut("shift-cmd-n"));
    assert_eq!(shortcut("shift-cmd-n").to_text(), "shift-cmd-n");
}

#[test]
fn rejects_a_shortcut_without_a_modifier() {
    assert_eq!(Shortcut::parse("n"), Err(ShortcutError::NoModifier));
}

#[test]
fn rejects_the_function_modifier() {
    assert_eq!(Shortcut::parse("fn-cmd-n"), Err(ShortcutError::FunctionModifier));
}

#[test]
fn rejects_a_key_that_cannot_be_registered() {
    let mut keystroke = shortcut("cmd-n").keystroke().clone();
    keystroke.key = "§".to_string();
    assert_eq!(
        Shortcut::from_keystroke(&keystroke),
        Err(ShortcutError::UnsupportedKey("§".to_string()))
    );
}

#[test]
fn maps_gpui_key_names_to_codes() {
    assert_eq!(key_code("n"), Some(Code::KeyN));
    assert_eq!(key_code("7"), Some(Code::Digit7));
    assert_eq!(key_code("f12"), Some(Code::F12));
    assert_eq!(key_code("left"), Some(Code::ArrowLeft));
    assert_eq!(key_code("space"), Some(Code::Space));
    assert_eq!(key_code("§"), None);
}

#[test]
fn text_that_is_not_a_key_combination_is_unparsable() {
    assert_eq!(Shortcut::parse(""), Err(ShortcutError::Unparsable(String::new())));
    assert_eq!(Shortcut::parse("cmd-"), Err(ShortcutError::Unparsable("cmd-".to_string())));
    assert_eq!(
        Shortcut::parse("hyper-n"),
        Err(ShortcutError::Unparsable("hyper-n".to_string()))
    );
}

#[test]
fn a_key_name_without_a_code_is_refused() {
    assert_eq!(
        Shortcut::parse("ctrl-f1x"),
        Err(ShortcutError::UnsupportedKey("f1x".to_string()))
    );
    assert_eq!(key_code("F1"), None);
    assert_eq!(key_code("A"), Some(Code::KeyA));
    assert_eq!(key_code("pagedown"), Some(Code::PageDown));
}

#[test]
fn counts_the_modifiers_held() {
    let keystroke = Keystroke {
        modifiers: KeyModifiers { control: true, alt: true, shift: false, platform: false, function: true },
        key: "n".to_string(),
    };
    assert_eq!(keystroke.modifiers.count(), 3);
    assert_eq!(KeyModifiers::none().count(), 0);
    assert!(keystroke.modifiers.secondary(false));
    assert!(!keystroke.modifiers.secondary(true));
}

#[test]
fn explains_why_a_shortcut_is_refused() {
    assert_eq!(
        ShortcutError::UnsupportedKey("§".to_string()).message(),
        "このキーはグローバルホットキーに使えません: §"
    );
    assert_eq!(
        ShortcutError::Unparsable("x-".to_string()).message(),
        "ショートカットとして読み取れません: x-"
    );
    assert_eq!(ShortcutError::FunctionModifier.message(), "fn キーはグローバルホットキーに使えません");
}

#[test]
fn every_accepted_combination_reads_back_from_its_stored_text() {
    for (control, alt, shift, platform) in [
        (true, false, false, false),
        (false, true, true, false),
        (true, true, true, true),
        (false, false, false, true),
    ] {
        for key in ["n", "7", "f12", "left", "pagedown", "space"] {
            let modifiers = KeyModifiers { control, alt, shift, platform, function: false };
            let pressed = Keystroke { modifiers, key: key.to_string() };
            let made = Shortcut::from_keystroke(&pressed).expect("accepted");
            let read = Shortcut::parse(&made.to_text()).expect("reads back");
            assert_eq!(read.keystroke(), &pressed);
            assert_eq!(read, made);
        }
    }
}

#[test]
fn a_shortcut_is_registered_under_its_key_code() {
    assert_eq!(shortcut("cmd-n").code(), Code::KeyN);
    assert_eq!(shortcut("ctrl-shift-f1").code(), Code::F1);
    assert_eq!(shortcut("alt-space").code(), Code::Space);
}
