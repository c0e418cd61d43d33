use lml::keys::{should_quit, Key, KeyEvent, KeyKind, Modifiers};

#[test]
fn quit_keys_exit_only_on_press() {
    for (code, modifiers) in [
        (Key::Char('q'), Modifiers::none()),
        (Key::Esc, Modifiers::none()),
        (Key::Char('c'), Modifiers::control()),
    ] {
        assert!(should_quit(KeyEvent::new(code, modifiers)));
        for kind in [KeyKind::Release, KeyKind::Repeat] {
            assert!(!should_quit(KeyEvent::new_with_kind(code, modifiers, kind)));
        }
    }
}

#[test]
fn unrelated_keys_do_not_quit() {
    for (code, modifiers) in [
        (Key::Char('c'), Modifiers::none()),
        (Key::Char('q'), Modifiers::alt()),
        (Key::Enter, Modifiers::none()),
    ] {
        assert!(!should_quit(KeyEvent::new(code, modifiers)));
    }
}

#[test]
fn shifted_or_extra_modifiers_do_not_quit() {
    let mut both = Modifiers::control();
    both.shift = true;
    assert!(!should_quit(KeyEvent::new(Key::Char('c'), both)));
    assert!(!should_quit(KeyEvent::new(Key::Esc, Modifiers::control())));
    assert!(!should_quit(KeyEvent::new(Key::Char('Q'), Modifiers::none())));
    assert!(!should_quit(KeyEvent::new(Key::Other, Modifiers::none())));
}
