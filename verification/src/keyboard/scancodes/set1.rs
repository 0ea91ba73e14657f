//! Scan code set 1, the set of the IBM PC/XT keyboard.

use vstd::prelude::*;
use crate::keyboard::{Error, KeyCode, KeyEvent, KeyState, ScancodeSet};

verus! {

/// The byte that announces a code of the extended table.
pub const EXTENDED_KEY_CODE: u8 = 0xE0;

/// The byte that announces a code of the second extended table.
pub const EXTENDED2_KEY_CODE: u8 = 0xE1;

/// Which table the next byte is looked up in.
#[derive(Debug, Copy, Clone, Eq, PartialEq, Structural)]
pub enum DecodeState {
    Start,
    Extended,
    Extended2,
}

/// Decoder for scan code set 1.
pub struct ScancodeSet1 {
    pub state: DecodeState,
}

/// The key with the plain code `code`.
#[verifier::opaque]
pub open spec fn plain_key(code: u8) -> Option<KeyCode> {
    match code {
        0x01 => Some(KeyCode::Escape),
        0x02 => Some(KeyCode::Key1),
        0x03 => Some(KeyCode::Key2),
        0x04 => Some(KeyCode::Key3),
        0x05 => Some(KeyCode::Key4),
        0x06 => Some(KeyCode::Key5),
        0x07 => Some(KeyCode::Key6),
        0x08 => Some(KeyCode::Key7),
        0x09 => Some(KeyCode::Key8),
        0x0A => Some(KeyCode::Key9),
        0x0B => Some(KeyCode::Key0),
        0x0C => Some(KeyCode::OemMinus),
        0x0D => Some(KeyCode::OemPlus),
        0x0E => Some(KeyCode::Backspace),
        0x0F => Some(KeyCode::Tab),
        0x10 => Some(KeyCode::Q),
        0x11 => Some(KeyCode::W),
        0x12 => Some(KeyCode::E),
        0x13 => Some(KeyCode::R),
        0x14 => Some(KeyCode::T),
        0x15 => Some(KeyCode::Y),
        0x16 => Some(KeyCode::U),
        0x17 => Some(KeyCode::I),
        0x18 => Some(KeyCode::O),
        0x19 => Some(KeyCode::P),
        0x1A => Some(KeyCode::Oem4),
        0x1B => Some(KeyCode::Oem6),
        0x1C => Some(KeyCode::Return),
        0x1D => Some(KeyCode::LControl),
        0x1E => Some(KeyCode::A),
        0x1F => Some(KeyCode::S),
        0x20 => Some(KeyCode::D),
        0x21 => Some(KeyCode::F),
        0x22 => Some(KeyCode::G),
        0x23 => Some(KeyCode::H),
        0x24 => Some(KeyCode::J),
        0x25 => Some(KeyCode::K),
        0x26 => Some(KeyCode::L),
        0x27 => Some(KeyCode::Oem1),
        0x28 => Some(KeyCode::Oem3),
        0x29 => Some(KeyCode::Oem8),
        0x2A => Some(KeyCode::LShift),
        0x2B => Some(KeyCode::Oem7),
        0x2C => Some(KeyCode::Z),
        0x2D => Some(KeyCode::X),
        0x2E => Some(KeyCode::C),
        0x2F => Some(KeyCode::V),
        0x30 => Some(KeyCode::B),
        0x31 => Some(KeyCode::N),
        0x32 => Some(KeyCode::M),
        0x33 => Some(KeyCode::OemComma),
        0x34 => Some(KeyCode::OemPeriod),
        0x35 => Some(KeyCode::Oem2),
        0x36 => Some(KeyCode::RShift),
        0x37 => Some(KeyCode::NumpadMultiply),
        0x38 => Some(KeyCode::LAlt),
        0x39 => Some(KeyCode::Spacebar),
        0x3A => Some(KeyCode::CapsLock),
        0x3B => Some(KeyCode::F1),
        0x3C => Some(KeyCode::F2),
        0x3D => Some(KeyCode::F3),
        0x3E => Some(KeyCode::F4),
        0x45 => Some(KeyCode::NumpadLock),
        0x46 => Some(KeyCode::ScrollLock),
        0x47 => Some(KeyCode::Numpad7),
        0x48 => Some(KeyCode::Numpad8),
        0x49 => Some(KeyCode::Numpad9),
        0x4A => Some(KeyCode::NumpadSubtract),
        0x4B => Some(KeyCode::Numpad4),
        0x4C => Some(KeyCode::Numpad5),
        0x4D => Some(KeyCode::Numpad6),
        0x4E => Some(KeyCode::NumpadAdd),
        0x4F => Some(KeyCode::Numpad1),
        0x50 => Some(KeyCode::Numpad2),
        0x51 => Some(KeyCode::Numpad3),
        0x52 => Some(KeyCode::Numpad0),
        0x53 => Some(KeyCode::NumpadPeriod),
        0x54 => Some(KeyCode::SysRq),
        0x56 => Some(KeyCode::Oem5),
        _ => None,
    }
}

/// The key with the extended code `code`.
#[verifier::opaque]
pub open spec fn extended_key(code: u8) -> Option<KeyCode> {
    match code {
        0x10 => Some(KeyCode::PrevTrack),
        0x19 => Some(KeyCode::NextTrack),
        0x1C => Some(KeyCode::NumpadEnter),
        0x1D => Some(KeyCode::RControl),
        0x20 => Some(KeyCode::Mute),
        0x21 => Some(KeyCode::Calculator),
        0x22 => Some(KeyCode::Play),
        0x24 => Some(KeyCode::Stop),
        0x2A => Some(KeyCode::RAlt2),
        0x2E => Some(KeyCode::VolumeDown),
        0x30 => Some(KeyCode::VolumeUp),
        0x32 => Some(KeyCode::WWWHome),
        0x35 => Some(KeyCode::NumpadDivide),
        0x37 => Some(KeyCode::PrintScreen),
        0x38 => Some(KeyCode::RAltGr),
        0x47 => Some(KeyCode::Home),
        0x48 => Some(KeyCode::ArrowUp),
        0x49 => Some(KeyCode::PageUp),
        0x4B => Some(KeyCode::ArrowLeft),
        0x4D => Some(KeyCode::ArrowRight),
        0x4F => Some(KeyCode::End),
        0x50 => Some(KeyCode::ArrowDown),
        0x51 => Some(KeyCode::PageDown),
        0x52 => Some(KeyCode::Insert),
        0x53 => Some(KeyCode::Delete),
        0x5B => Some(KeyCode::LWin),
        0x5C => Some(KeyCode::RWin),
        0x5D => Some(KeyCode::Apps),
        0x70 => Some(KeyCode::Oem11),
        0x73 => Some(KeyCode::Oem12),
        0x79 => Some(KeyCode::Oem10),
        0x7B => Some(KeyCode::Oem9),
        0x7D => Some(KeyCode::Oem13),
        _ => None,
    }
}

/// The key with the code `code` of the second extended table.
#[verifier::opaque]
pub open spec fn extended2_key(code: u8) -> Option<KeyCode> {
    match code {
        0x1D => Some(KeyCode::RControl2),
        _ => None,
    }
}

/// The key event of a byte whose low seven bits name a key in a table and
/// whose high bit says that the key went up.
pub open spec fn key_event(key: Option<KeyCode>, code: u8) -> Result<Option<KeyEvent>, Error> {
    match key {
        Some(k) => Ok(
            Some(
                KeyEvent {
                    code: k,
                    state: if code >= 0x80 {
                        KeyState::Up
                    } else {
                        KeyState::Down
                    },
                },
            ),
        ),
        None => Err(Error::UnknownKeyCode),
    }
}

impl ScancodeSet1 {
    /// A decoder that expects a plain code.
    pub fn new() -> (set: ScancodeSet1)
        ensures
            set.state == DecodeState::Start,
    {
        ScancodeSet1 { state: DecodeState::Start }
    }

    /// The key with the plain code `code`.
    pub fn map_scancode(code: u8) -> (key: Result<KeyCode, Error>)
        ensures
            key == match plain_key(code) {
                Some(k) => Ok::<KeyCode, Error>(k),
                None => Err(Error::UnknownKeyCode),
            },
    {
        reveal(plain_key);
        match code {
            0x01 => Ok(KeyCode::Escape),
            0x02 => Ok(KeyCode::Key1),
            0x03 => Ok(KeyCode::Key2),
            0x04 => Ok(KeyCode::Key3),
            0x05 => Ok(KeyCode::Key4),
            0x06 => Ok(KeyCode::Key5),
            0x07 => Ok(KeyCode::Key6),
            0x08 => Ok(KeyCode::Key7),
            0x09 => Ok(KeyCode::Key8),
            0x0A => Ok(KeyCode::Key9),
            0x0B => Ok(KeyCode::Key0),
            0x0C => Ok(KeyCode::OemMinus),
            0x0D => Ok(KeyCode::OemPlus),
            0x0E => Ok(KeyCode::Backspace),
            0x0F => Ok(KeyCode::Tab),
            0x10 => Ok(KeyCode::Q),
            0x11 => Ok(KeyCode::W),
            0x12 => Ok(KeyCode::E),
            0x13 => Ok(KeyCode::R),
            0x14 => Ok(KeyCode::T),
            0x15 => Ok(KeyCode::Y),
            0x16 => Ok(KeyCode::U),
            0x17 => Ok(KeyCode::I),
            0x18 => Ok(KeyCode::O),
            0x19 => Ok(KeyCode::P),
            0x1A => Ok(KeyCode::Oem4),
            0x1B => Ok(KeyCode::Oem6),
            0x1C => Ok(KeyCode::Return),
            0x1D => Ok(KeyCode::LControl),
            0x1E => Ok(KeyCode::A),
            0x1F => Ok(KeyCode::S),
            0x20 => Ok(KeyCode::D),
            0x21 => Ok(KeyCode::F),
            0x22 => Ok(KeyCode::G),
            0x23 => Ok(KeyCode::H),
            0x24 => Ok(KeyCode::J),
            0x25 => Ok(KeyCode::K),
            0x26 => Ok(KeyCode::L),
            0x27 => Ok(KeyCode::Oem1),
            0x28 => Ok(KeyCode::Oem3),
            0x29 => Ok(KeyCode::Oem8),
            0x2A => Ok(KeyCode::LShift),
            0x2B => Ok(KeyCode::Oem7),
            0x2C => Ok(KeyCode::Z),
            0x2D => Ok(KeyCode::X),
            0x2E => Ok(KeyCode::C),
            0x2F => Ok(KeyCode::V),
            0x30 => Ok(KeyCode::B),
            0x31 => Ok(KeyCode::N),
            0x32 => Ok(KeyCode::M),
            0x33 => Ok(KeyCode::OemComma),
            0x34 => Ok(KeyCode::OemPeriod),
            0x35 => Ok(KeyCode::Oem2),
            0x36 => Ok(KeyCode::RShift),
            0x37 => Ok(KeyCode::NumpadMultiply),
            0x38 => Ok(KeyCode::LAlt),
            0x39 => Ok(KeyCode::Spacebar),
            0x3A => Ok(KeyCode::CapsLock),
            0x3B => Ok(KeyCode::F1),
            0x3C => Ok(KeyCode::F2),
            0x3D => Ok(KeyCode::F3),
            0x3E => Ok(KeyCode::F4),
            0x45 => Ok(KeyCode::NumpadLock),
            0x46 => Ok(KeyCode::ScrollLock),
            0x47 => Ok(KeyCode::Numpad7),
            0x48 => Ok(KeyCode::Numpad8),
            0x49 => Ok(KeyCode::Numpad9),
            0x4A => Ok(KeyCode::NumpadSubtract),
            0x4B => Ok(KeyCode::Numpad4),
            0x4C => Ok(KeyCode::Numpad5),
            0x4D => Ok(KeyCode::Numpad6),
            0x4E => Ok(KeyCode::NumpadAdd),
            0x4F => Ok(KeyCode::Numpad1),
            0x50 => Ok(KeyCode::Numpad2),
            0x51 => Ok(KeyCode::Numpad3),
            0x52 => Ok(KeyCode::Numpad0),
            0x53 => Ok(KeyCode::NumpadPeriod),
            0x54 => Ok(KeyCode::SysRq),
            0x56 => Ok(KeyCode::Oem5),
            _ => Err(Error::UnknownKeyCode),
        }
    }

    /// The key with the extended code `code`.
    pub fn map_extended_scancode(code: u8) -> (key: Result<KeyCode, Error>)
        ensures
            key == match extended_key(code) {
                Some(k) => Ok::<KeyCode, Error>(k),
                None => Err(Error::UnknownKeyCode),
            },
    {
        reveal(extended_key);
        match code {
            0x10 => Ok(KeyCode::PrevTrack),
            0x19 => Ok(KeyCode::NextTrack),
            0x1C => Ok(KeyCode::NumpadEnter),
            0x1D => Ok(KeyCode::RControl),
            0x20 => Ok(KeyCode::Mute),
            0x21 => Ok(KeyCode::Calculator),
            0x22 => Ok(KeyCode::Play),
            0x24 => Ok(KeyCode::Stop),
            0x2A => Ok(KeyCode::RAlt2),
            0x2E => Ok(KeyCode::VolumeDown),
            0x30 => Ok(KeyCode::VolumeUp),
            0x32 => Ok(KeyCode::WWWHome),
            0x35 => Ok(KeyCode::NumpadDivide),
            0x37 => Ok(KeyCode::PrintScreen),
            0x38 => Ok(KeyCode::RAltGr),
            0x47 => Ok(KeyCode::Home),
            0x48 => Ok(KeyCode::ArrowUp),
            0x49 => Ok(KeyCode::PageUp),
            0x4B => Ok(KeyCode::ArrowLeft),
            0x4D => Ok(KeyCode::ArrowRight),
            0x4F => Ok(KeyCode::End),
            0x50 => Ok(KeyCode::ArrowDown),
            0x51 => Ok(KeyCode::PageDown),
            0x52 => Ok(KeyCode::Insert),
            0x53 => Ok(KeyCode::Delete),
            0x5B => Ok(KeyCode::LWin),
            0x5C => Ok(KeyCode::RWin),
            0x5D => Ok(KeyCode::Apps),
            0x70 => Ok(KeyCode::Oem11),
            0x73 => Ok(KeyCode::Oem12),
            0x79 => Ok(KeyCode::Oem10),
            0x7B => Ok(KeyCode::Oem9),
            0x7D => Ok(KeyCode::Oem13),
            _ => Err(Error::UnknownKeyCode),
        }
    }

    /// The key with the code `code` of the second extended table.
    pub fn map_extended2_scancode(code: u8) -> (key: Result<KeyCode, Error>)
        ensures
            key == match extended2_key(code) {
                Some(k) => Ok::<KeyCode, Error>(k),
                None => Err(Error::UnknownKeyCode),
            },
    {
        reveal(extended2_key);
        match code {
            0x1D => Ok(KeyCode::RControl2),
            _ => Err(Error::UnknownKeyCode),
        }
    }

    /// The state after the byte `code`: an announcing byte that comes where
    /// a plain code is expected selects its table for the next byte; after
    /// any other byte a plain code is expected.
    pub open spec fn next_state(self, code: u8) -> DecodeState {
        if self.state == DecodeState::Start && code == EXTENDED_KEY_CODE {
            DecodeState::Extended
        } else if self.state == DecodeState::Start && code == EXTENDED2_KEY_CODE {
            DecodeState::Extended2
        } else {
            DecodeState::Start
        }
    }

    /// What the byte `code` completes: nothing where it announces a table,
    /// else the event of the key that its low seven bits name in the
    /// expected table.
    pub open spec fn completed(self, code: u8) -> Result<Option<KeyEvent>, Error> {
        let low = (code % 0x80) as u8;
        match self.state {
            DecodeState::Start => if code == EXTENDED_KEY_CODE || code == EXTENDED2_KEY_CODE {
                Ok(None)
            } else {
                key_event(plain_key(low), code)
            },
            DecodeState::Extended => key_event(extended_key(low), code),
            DecodeState::Extended2 => key_event(extended2_key(low), code),
        }
    }

    /// Takes in the next byte from the keyboard.
    pub fn add_byte(&mut self, code: u8) -> (event: Result<Option<KeyEvent>, Error>)
        ensures
            final(self).state == old(self).next_state(code),
            event == old(self).completed(code),
    {
        match self.state {
            DecodeState::Start => {
                if code == EXTENDED_KEY_CODE {
                    self.state = DecodeState::Extended;
                    Ok(None)
                } else if code == EXTENDED2_KEY_CODE {
                    self.state = DecodeState::Extended2;
                    Ok(None)
                } else if code >= 0x80 {
                    Ok(Some(KeyEvent::new(Self::map_scancode(code - 0x80)?, KeyState::Up)))
                } else {
                    Ok(Some(KeyEvent::new(Self::map_scancode(code)?, KeyState::Down)))
                }
            },
            DecodeState::Extended => {
                self.state = DecodeState::Start;
                if code >= 0x80 {
                    Ok(
                        Some(
                            KeyEvent::new(
                                Self::map_extended_scancode(code - 0x80)?,
                                KeyState::Up,
                            ),
                        ),
                    )
                } else {
                    Ok(Some(KeyEvent::new(Self::map_extended_scancode(code)?, KeyState::Down)))
                }
            },
            DecodeState::Extended2 => {
                self.state = DecodeState::Start;
                if code >= 0x80 {
                    Ok(
                        Some(
                            KeyEvent::new(
                                Self::map_extended2_scancode(code - 0x80)?,
                                KeyState::Up,
                            ),
                        ),
                    )
                } else {
                    Ok(Some(KeyEvent::new(Self::map_extended2_scancode(code)?, KeyState::Down)))
                }
            },
        }
    }
}

impl ScancodeSet for ScancodeSet1 {
    open spec fn advanced(&self, code: u8) -> ScancodeSet1 {
        ScancodeSet1 { state: self.next_state(code) }
    }

    open spec fn decoded(&self, code: u8) -> Result<Option<KeyEvent>, Error> {
        self.completed(code)
    }

    fn advance_state(&mut self, code: u8) -> (event: Result<Option<KeyEvent>, Error>) {
        self.add_byte(code)
    }
}

} // verus!
