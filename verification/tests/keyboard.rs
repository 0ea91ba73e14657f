use kernel_core::keyboard::scancodes::set1::DecodeState;
use kernel_core::keyboard::{
    DecodedKey, Error, EventDecoder, KeyCode, KeyEvent, KeyState, Keyboard, KeyboardLayout,
    Modifiers, ScancodeSet, ScancodeSet1,
};

/// A layout with two keys: A, which follows shift and Caps Lock, and 1,
/// which follows shift.
struct TwoKeys;

impl KeyboardLayout for TwoKeys {
    fn decode(&self, keycode: KeyCode, modifiers: Modifiers) -> DecodedKey {
        self.map_keycode(keycode, &modifiers)
    }

    fn map_keycode(&self, keycode: KeyCode, modifiers: &Modifiers) -> DecodedKey {
        match keycode {
            KeyCode::A if modifiers.is_caps() => DecodedKey::Unicode('A'),
            KeyCode::A => DecodedKey::Unicode('a'),
            KeyCode::Key1 if modifiers.is_shifted() => DecodedKey::Unicode('!'),
            KeyCode::Key1 => DecodedKey::Unicode('1'),
            other => DecodedKey::RawKey(other),
        }
    }
}

fn keyboard() -> Keyboard<TwoKeys, ScancodeSet1> {
    Keyboard::new(ScancodeSet1::new(), TwoKeys)
}

fn down(code: KeyCode) -> KeyEvent {
    KeyEvent::new(code, KeyState::Down)
}

fn up(code: KeyCode) -> KeyEvent {
    KeyEvent::new(code, KeyState::Up)
}

#[test]
fn plain_codes_are_key_presses() {
    assert_eq!(ScancodeSet1::map_scancode(0x01), Ok(KeyCode::Escape));
    assert_eq!(ScancodeSet1::map_scancode(0x02), Ok(KeyCode::Key1));
    assert_eq!(ScancodeSet1::map_scancode(0x1e), Ok(KeyCode::A));
    assert_eq!(ScancodeSet1::map_scancode(0x39), Ok(KeyCode::Spacebar));
    assert_eq!(ScancodeSet1::map_scancode(0x3e), Ok(KeyCode::F4));
    assert_eq!(ScancodeSet1::map_scancode(0x45), Ok(KeyCode::NumpadLock));
    assert_eq!(ScancodeSet1::map_scancode(0x54), Ok(KeyCode::SysRq));
    assert_eq!(ScancodeSet1::map_scancode(0x56), Ok(KeyCode::Oem5));
}

#[test]
fn codes_without_a_key_are_errors() {
    assert_eq!(ScancodeSet1::map_scancode(0x00), Err(Error::UnknownKeyCode));
    assert_eq!(ScancodeSet1::map_scancode(0x3f), Err(Error::UnknownKeyCode));
    assert_eq!(ScancodeSet1::map_scancode(0x44), Err(Error::UnknownKeyCode));
    assert_eq!(ScancodeSet1::map_scancode(0x55), Err(Error::UnknownKeyCode));
    assert_eq!(ScancodeSet1::map_scancode(0x57), Err(Error::UnknownKeyCode));
    assert_eq!(ScancodeSet1::map_scancode(0xff), Err(Error::UnknownKeyCode));
    assert_eq!(ScancodeSet1::map_extended_scancode(0x00), Err(Error::UnknownKeyCode));
    assert_eq!(ScancodeSet1::map_extended_scancode(0x1e), Err(Error::UnknownKeyCode));
    assert_eq!(ScancodeSet1::map_extended2_scancode(0x1c), Err(Error::UnknownKeyCode));
    assert_eq!(ScancodeSet1::map_extended2_scancode(0x1e), Err(Error::UnknownKeyCode));
}

#[test]
fn extended_codes_have_their_own_table() {
    assert_eq!(ScancodeSet1::map_extended_scancode(0x10), Ok(KeyCode::PrevTrack));
    assert_eq!(ScancodeSet1::map_extended_scancode(0x1c), Ok(KeyCode::NumpadEnter));
    assert_eq!(ScancodeSet1::map_extended_scancode(0x1d), Ok(KeyCode::RControl));
    assert_eq!(ScancodeSet1::map_extended_scancode(0x2a), Ok(KeyCode::RAlt2));
    assert_eq!(ScancodeSet1::map_extended_scancode(0x48), Ok(KeyCode::ArrowUp));
    assert_eq!(ScancodeSet1::map_extended_scancode(0x53), Ok(KeyCode::Delete));
    assert_eq!(ScancodeSet1::map_extended_scancode(0x7d), Ok(KeyCode::Oem13));
    assert_eq!(ScancodeSet1::map_extended2_scancode(0x1d), Ok(KeyCode::RControl2));
}

#[test]
fn a_byte_with_the_high_bit_is_a_release() {
    let mut set = ScancodeSet1::new();
    assert_eq!(set.add_byte(0x1e), Ok(Some(down(KeyCode::A))));
    assert_eq!(set.add_byte(0x9e), Ok(Some(up(KeyCode::A))));
    assert_eq!(set.add_byte(0x81), Ok(Some(up(KeyCode::Escape))));
    assert_eq!(set.add_byte(0xd6), Ok(Some(up(KeyCode::Oem5))));
    assert_eq!(set.add_byte(0x80), Err(Error::UnknownKeyCode));
    assert_eq!(set.add_byte(0xff), Err(Error::UnknownKeyCode));
    assert_eq!(set.state, DecodeState::Start);
}

#[test]
fn an_announcing_byte_selects_the_table_for_one_byte() {
    let mut set = ScancodeSet1::new();
    assert_eq!(set.state, DecodeState::Start);
    assert_eq!(set.add_byte(0xe0), Ok(None));
    assert_eq!(set.state, DecodeState::Extended);
    assert_eq!(set.add_byte(0x48), Ok(Some(down(KeyCode::ArrowUp))));
    assert_eq!(set.state, DecodeState::Start);
    assert_eq!(set.add_byte(0x48), Ok(Some(down(KeyCode::Numpad8))));
    assert_eq!(set.add_byte(0xe0), Ok(None));
    assert_eq!(set.add_byte(0xc8), Ok(Some(up(KeyCode::ArrowUp))));
    assert_eq!(set.state, DecodeState::Start);
    assert_eq!(set.add_byte(0xe1), Ok(None));
    assert_eq!(set.state, DecodeState::Extended2);
    assert_eq!(set.add_byte(0x1d), Ok(Some(down(KeyCode::RControl2))));
    assert_eq!(set.state, DecodeState::Start);
    assert_eq!(set.add_byte(0xe1), Ok(None));
    assert_eq!(set.add_byte(0x9d), Ok(Some(up(KeyCode::RControl2))));
    assert_eq!(set.state, DecodeState::Start);
}

#[test]
fn an_unknown_extended_code_ends_the_sequence() {
    let mut set = ScancodeSet1::new();
    assert_eq!(set.add_byte(0xe0), Ok(None));
    assert_eq!(set.add_byte(0x01), Err(Error::UnknownKeyCode));
    assert_eq!(set.state, DecodeState::Start);
    assert_eq!(set.add_byte(0x01), Ok(Some(down(KeyCode::Escape))));
    assert_eq!(set.add_byte(0xe1), Ok(None));
    assert_eq!(set.add_byte(0x01), Err(Error::UnknownKeyCode));
    assert_eq!(set.state, DecodeState::Start);
}

#[test]
fn an_announcing_byte_after_an_announcing_byte_is_a_code() {
    let mut set = ScancodeSet1::new();
    assert_eq!(set.add_byte(0xe0), Ok(None));
    // 0xe0 is the release of the extended code 0x60, which names no key
    assert_eq!(set.add_byte(0xe0), Err(Error::UnknownKeyCode));
    assert_eq!(set.state, DecodeState::Start);
    assert_eq!(set.add_byte(0xe1), Ok(None));
    assert_eq!(set.add_byte(0xe1), Err(Error::UnknownKeyCode));
    assert_eq!(set.state, DecodeState::Start);
}

#[test]
fn advance_state_is_add_byte() {
    let mut set = ScancodeSet1::new();
    assert_eq!(set.advance_state(0xe0), Ok(None));
    assert_eq!(set.advance_state(0x1d), Ok(Some(down(KeyCode::RControl))));
    assert_eq!(set.advance_state(0x1d), Ok(Some(down(KeyCode::LControl))));
}

#[test]
fn the_keyboard_decodes_bytes_and_events() {
    let mut keyboard = keyboard();
    let event = keyboard.add_byte(0x1e).unwrap().unwrap();
    assert_eq!(event, down(KeyCode::A));
    assert_eq!(keyboard.process_keyevent(event), Some(DecodedKey::Unicode('a')));
    let event = keyboard.add_byte(0x9e).unwrap().unwrap();
    assert_eq!(keyboard.process_keyevent(event), None);
    assert_eq!(keyboard.add_byte(0xe0), Ok(None));
    let event = keyboard.add_byte(0x4b).unwrap().unwrap();
    assert_eq!(keyboard.process_keyevent(event), Some(DecodedKey::RawKey(KeyCode::ArrowLeft)));
    assert_eq!(keyboard.add_byte(0x00), Err(Error::UnknownKeyCode));
}

#[test]
fn a_new_decoder_has_num_lock_on_and_nothing_held() {
    let decoder = EventDecoder::new(TwoKeys);
    assert_eq!(
        decoder.modifiers,
        Modifiers {
            lshift: false,
            rshift: false,
            lctrl: false,
            rctrl: false,
            numlock: true,
            capslock: false,
            lalt: false,
            ralt: false,
            rctrl2: false,
        }
    );
}

#[test]
fn shift_is_held_until_released() {
    let mut decoder = EventDecoder::new(TwoKeys);
    assert_eq!(
        decoder.process_keyevent(down(KeyCode::LShift)),
        Some(DecodedKey::RawKey(KeyCode::LShift))
    );
    assert!(decoder.modifiers.lshift);
    assert_eq!(decoder.process_keyevent(down(KeyCode::Key1)), Some(DecodedKey::Unicode('!')));
    assert_eq!(decoder.process_keyevent(down(KeyCode::A)), Some(DecodedKey::Unicode('A')));
    assert_eq!(decoder.process_keyevent(up(KeyCode::LShift)), None);
    assert!(!decoder.modifiers.lshift);
    assert_eq!(decoder.process_keyevent(down(KeyCode::Key1)), Some(DecodedKey::Unicode('1')));
    assert_eq!(
        decoder.process_keyevent(down(KeyCode::RShift)),
        Some(DecodedKey::RawKey(KeyCode::RShift))
    );
    assert!(decoder.modifiers.rshift);
    assert_eq!(decoder.process_keyevent(down(KeyCode::Key1)), Some(DecodedKey::Unicode('!')));
    assert_eq!(decoder.process_keyevent(up(KeyCode::RShift)), None);
    assert!(!decoder.modifiers.rshift);
}

#[test]
fn caps_lock_changes_on_each_press() {
    let mut decoder = EventDecoder::new(TwoKeys);
    assert_eq!(
        decoder.process_keyevent(down(KeyCode::CapsLock)),
        Some(DecodedKey::RawKey(KeyCode::CapsLock))
    );
    assert!(decoder.modifiers.capslock);
    assert_eq!(decoder.process_keyevent(up(KeyCode::CapsLock)), None);
    assert!(decoder.modifiers.capslock);
    assert_eq!(decoder.process_keyevent(down(KeyCode::A)), Some(DecodedKey::Unicode('A')));
    assert_eq!(decoder.process_keyevent(down(KeyCode::Key1)), Some(DecodedKey::Unicode('1')));
    decoder.process_keyevent(down(KeyCode::LShift));
    assert_eq!(decoder.process_keyevent(down(KeyCode::A)), Some(DecodedKey::Unicode('a')));
    decoder.process_keyevent(up(KeyCode::LShift));
    decoder.process_keyevent(down(KeyCode::CapsLock));
    assert!(!decoder.modifiers.capslock);
    assert_eq!(decoder.process_keyevent(down(KeyCode::A)), Some(DecodedKey::Unicode('a')));
}

#[test]
fn num_lock_after_the_hidden_control_key_is_pause() {
    let mut decoder = EventDecoder::new(TwoKeys);
    assert_eq!(
        decoder.process_keyevent(down(KeyCode::NumpadLock)),
        Some(DecodedKey::RawKey(KeyCode::NumpadLock))
    );
    assert!(!decoder.modifiers.numlock);
    assert_eq!(decoder.process_keyevent(up(KeyCode::NumpadLock)), None);
    assert!(!decoder.modifiers.numlock);
    assert_eq!(
        decoder.process_keyevent(down(KeyCode::RControl2)),
        Some(DecodedKey::RawKey(KeyCode::RControl2))
    );
    assert!(decoder.modifiers.rctrl2);
    assert_eq!(
        decoder.process_keyevent(down(KeyCode::NumpadLock)),
        Some(DecodedKey::RawKey(KeyCode::PauseBreak))
    );
    assert!(!decoder.modifiers.numlock);
    assert_eq!(decoder.process_keyevent(up(KeyCode::RControl2)), None);
    assert!(!decoder.modifiers.rctrl2);
    decoder.process_keyevent(down(KeyCode::NumpadLock));
    assert!(decoder.modifiers.numlock);
}

#[test]
fn control_and_alt_are_held_until_released() {
    let mut decoder = EventDecoder::new(TwoKeys);
    let keys = [KeyCode::LControl, KeyCode::RControl, KeyCode::LAlt, KeyCode::RAltGr];
    for key in keys {
        assert_eq!(decoder.process_keyevent(down(key)), Some(DecodedKey::RawKey(key)));
    }
    assert!(decoder.modifiers.lctrl);
    assert!(decoder.modifiers.rctrl);
    assert!(decoder.modifiers.lalt);
    assert!(decoder.modifiers.ralt);
    for key in keys {
        assert_eq!(decoder.process_keyevent(up(key)), None);
    }
    assert!(!decoder.modifiers.lctrl);
    assert!(!decoder.modifiers.rctrl);
    assert!(!decoder.modifiers.lalt);
    assert!(!decoder.modifiers.ralt);
    assert!(decoder.modifiers.numlock);
}

#[test]
fn other_keys_go_to_the_layout_and_releases_type_nothing() {
    let mut decoder = EventDecoder::new(TwoKeys);
    assert_eq!(
        decoder.process_keyevent(down(KeyCode::Escape)),
        Some(DecodedKey::RawKey(KeyCode::Escape))
    );
    assert_eq!(
        decoder.process_keyevent(down(KeyCode::PauseBreak)),
        Some(DecodedKey::RawKey(KeyCode::PauseBreak))
    );
    assert_eq!(
        decoder.process_keyevent(down(KeyCode::RAlt2)),
        Some(DecodedKey::RawKey(KeyCode::RAlt2))
    );
    assert_eq!(decoder.process_keyevent(up(KeyCode::Escape)), None);
    assert_eq!(decoder.process_keyevent(up(KeyCode::A)), None);
    assert_eq!(decoder.modifiers, EventDecoder::new(TwoKeys).modifiers);
}

#[test]
fn shifted_and_caps() {
    let none = EventDecoder::new(TwoKeys).modifiers;
    assert!(!none.is_shifted());
    assert!(!none.is_caps());
    let left = Modifiers { lshift: true, ..none.clone() };
    let right = Modifiers { rshift: true, ..none.clone() };
    let both = Modifiers { lshift: true, rshift: true, ..none.clone() };
    let caps = Modifiers { capslock: true, ..none.clone() };
    let caps_left = Modifiers { capslock: true, lshift: true, ..none.clone() };
    let caps_both = Modifiers { capslock: true, lshift: true, rshift: true, ..none.clone() };
    assert!(left.is_shifted() && right.is_shifted() && both.is_shifted());
    assert!(left.is_caps() && right.is_caps() && both.is_caps());
    assert!(!caps.is_shifted());
    assert!(caps.is_caps());
    assert!(caps_left.is_shifted());
    assert!(!caps_left.is_caps());
    assert!(!caps_both.is_caps());
}

#[test]
fn key_codes_are_ordered_as_declared() {
    assert!(KeyCode::Escape < KeyCode::F1);
    assert!(KeyCode::F12 < KeyCode::PrintScreen);
    assert!(KeyCode::A < KeyCode::S);
    assert!(KeyCode::TooManyKeys < KeyCode::RControl2);
    assert!(KeyCode::RControl2 < KeyCode::RAlt2);
}
