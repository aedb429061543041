use dene::interactive::{
    MODIFIER_ALT, MODIFIER_CONTROL, MODIFIER_HYPER, MODIFIER_META, MODIFIER_SHIFT, MODIFIER_SUPER,
};
use dene::{
    InputEvent, KeyDownEvent, KeyEventKind, KeyInput, KeyUpEvent, KeyboardEvent, Keystroke,
    PlatformInput,
};

fn key(modifiers: u8, code: &str, is_back_tab: bool, kind: KeyEventKind) -> KeyInput {
    KeyInput { modifiers, code: code.to_string(), is_back_tab, kind }
}

#[test]
fn keystroke_text_single_modifiers() {
    assert_eq!(key(MODIFIER_SHIFT, "a", false, KeyEventKind::Press).keystroke_text(), "shift-a");
    assert_eq!(key(MODIFIER_CONTROL, "q", false, KeyEventKind::Press).keystroke_text(), "ctrl-q");
    assert_eq!(key(MODIFIER_ALT, "x", false, KeyEventKind::Press).keystroke_text(), "alt-x");
    assert_eq!(key(MODIFIER_META, "m", false, KeyEventKind::Press).keystroke_text(), "meta-m");
    assert_eq!(key(MODIFIER_SUPER, "m", false, KeyEventKind::Press).keystroke_text(), "meta-m");
    assert_eq!(key(MODIFIER_HYPER, "m", false, KeyEventKind::Press).keystroke_text(), "meta-m");
}

#[test]
fn keystroke_text_combined_modifiers_have_no_prefix() {
    let both = MODIFIER_CONTROL | MODIFIER_SHIFT;
    assert_eq!(key(both, "a", false, KeyEventKind::Press).keystroke_text(), "a");
    assert_eq!(key(0, "Enter", false, KeyEventKind::Press).keystroke_text(), "Enter");
}

#[test]
fn keystroke_text_back_tab_is_tab() {
    assert_eq!(key(MODIFIER_SHIFT, "Back Tab", true, KeyEventKind::Press).keystroke_text(), "shift-tab");
}

#[test]
fn key_input_kinds() {
    match key(0, "a", false, KeyEventKind::Press).to_platform_input() {
        PlatformInput::KeyDown(e) => {
            assert_eq!(e.keystroke.text, "a");
            assert!(!e.is_held);
        },
        other => panic!("unexpected {:?}", other),
    }
    match key(MODIFIER_CONTROL, "b", false, KeyEventKind::Repeat).to_platform_input() {
        PlatformInput::KeyDown(e) => {
            assert_eq!(e.keystroke.text, "ctrl-b");
            assert!(e.is_held);
        },
        other => panic!("unexpected {:?}", other),
    }
    match key(0, "c", false, KeyEventKind::Release).to_platform_input() {
        PlatformInput::KeyUp(e) => assert_eq!(e.keystroke.text, "c"),
        other => panic!("unexpected {:?}", other),
    }
}

#[test]
fn platform_input_keyboard_and_mouse_events() {
    let down = PlatformInput::KeyDown(KeyDownEvent { keystroke: Keystroke::new("a".to_string()), is_held: false });
    match down.keyboard_event() {
        Some(KeyboardEvent::Down(e)) => assert_eq!(e.keystroke.text, "a"),
        _ => panic!("expected a key-down event"),
    }
    assert!(down.mouse_event().is_none());
    let up = PlatformInput::KeyUp(KeyUpEvent { keystroke: Keystroke::new("b".to_string()) });
    match up.keyboard_event() {
        Some(KeyboardEvent::Up(e)) => assert_eq!(e.keystroke.text, "b"),
        _ => panic!("expected a key-up event"),
    }
    for mouse in [PlatformInput::MouseButtonDown(()), PlatformInput::MouseButtonUp(()), PlatformInput::MouseMove(())] {
        assert!(mouse.keyboard_event().is_none());
        assert!(mouse.mouse_event().is_some());
    }
}

#[test]
fn events_to_platform_events() {
    let e = KeyDownEvent { keystroke: Keystroke::new("x".to_string()), is_held: true };
    match e.to_platform_event() {
        PlatformInput::KeyDown(d) => {
            assert_eq!(d.keystroke, Keystroke::new("x".to_string()));
            assert!(d.is_held);
        },
        _ => panic!("expected key-down"),
    }
    let u = KeyUpEvent { keystroke: Keystroke::new("y".to_string()) };
    assert!(matches!(u.to_platform_event(), PlatformInput::KeyUp(_)));
    let p = PlatformInput::MouseMove(());
    assert!(matches!(p.to_platform_event(), PlatformInput::MouseMove(())));
}

#[test]
fn focus_behavior_builders() {
    let b = dene::FocusBehavior::new();
    assert_eq!(b, dene::FocusBehavior::default());
    assert!(!b.focusable && b.tab_index.is_none() && !b.tab_stop);
    let t = b.tab_index(3);
    assert_eq!(t, dene::FocusBehavior { focusable: true, tab_index: Some(3), tab_stop: true });
    let s = t.tab_stop(false);
    assert_eq!(s, dene::FocusBehavior { focusable: true, tab_index: Some(3), tab_stop: false });
    let f = dene::FocusBehavior::new().track_focus();
    assert_eq!(f, dene::FocusBehavior { focusable: true, tab_index: None, tab_stop: false });
}

#[test]
fn input_state_starts_empty_and_enabled() {
    let s = dene::InputState::new();
    assert_eq!(s.text.len_chars(), 0);
    assert_eq!(s.text.to_string(), "");
    assert!(!s.disabled);
}
