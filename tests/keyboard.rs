use clipboard_sync::keyboard::{ControlState, HotkeyReaction, KeyTransition, KeyboardKey};

#[test]
fn key_codes() {
    assert_eq!(u64::from(KeyboardKey::CKey), 0x43);
    assert_eq!(u64::from(KeyboardKey::VKey), 0x56);
    assert_eq!(u64::from(KeyboardKey::LControlKey), 0xA2);
    assert_eq!(u64::from(KeyboardKey::RControlKey), 0xA3);
    assert_eq!(u64::from(KeyboardKey::OtherKey(7)), 7);
    assert_eq!(KeyboardKey::from(0x56u64), KeyboardKey::VKey);
    assert_eq!(KeyboardKey::from(0xA3u64), KeyboardKey::RControlKey);
    assert_eq!(KeyboardKey::from(0x41u64), KeyboardKey::OtherKey(0x41));
}

#[test]
fn copy_and_paste_chords() {
    let mut s = ControlState::new();
    assert_eq!(s.on_key(KeyTransition::Down, KeyboardKey::CKey), HotkeyReaction::Nothing);
    assert_eq!(s.on_key(KeyTransition::Down, KeyboardKey::LControlKey), HotkeyReaction::RequestLoad);
    assert_eq!(s.on_key(KeyTransition::Down, KeyboardKey::CKey), HotkeyReaction::CaptureAndStore);
    assert_eq!(s.on_key(KeyTransition::Down, KeyboardKey::VKey), HotkeyReaction::Paste);
    assert_eq!(s.on_key(KeyTransition::Up, KeyboardKey::LControlKey), HotkeyReaction::Nothing);
    assert_eq!(s.on_key(KeyTransition::Down, KeyboardKey::VKey), HotkeyReaction::Nothing);
    assert_eq!(s.on_key(KeyTransition::Down, KeyboardKey::RControlKey), HotkeyReaction::RequestLoad);
    assert_eq!(s, ControlState { left: false, right: true });
    assert_eq!(s.on_key(KeyTransition::Other, KeyboardKey::RControlKey), HotkeyReaction::Nothing);
    assert_eq!(s.on_key(KeyTransition::Down, KeyboardKey::VKey), HotkeyReaction::Paste);
}
