//! Decoding of keyboard input: bytes from the keyboard become key events,
//! and key events become characters or raw keys.

use vstd::prelude::*;

pub mod scancodes;

pub use self::scancodes::set1::ScancodeSet1;

verus! {

/// A keyboard with the scan code set `S` and the layout `L`.
#[derive(Debug)]
pub struct Keyboard<L, S> where S: ScancodeSet, L: KeyboardLayout {
    pub scancode_set: S,
    pub event_decoder: EventDecoder<L>,
}

/// Turns key events into decoded keys and keeps track of the modifier keys.
#[derive(Debug)]
pub struct EventDecoder<L: KeyboardLayout> {
    pub modifiers: Modifiers,
    pub layout: L,
}

/// What can go wrong while bytes are decoded.
#[derive(Debug, PartialEq, Eq, Structural, Copy, Clone)]
pub enum Error {
    /// The byte stands for no key.
    UnknownKeyCode,
}

/// The keys of a keyboard, row by row from the top left, followed by the
/// extra keys of some keyboards and by two codes that stand for no key of
/// their own.
#[allow(dead_code)]
#[derive(Debug, PartialEq, Eq, Structural, Copy, Clone, PartialOrd, Ord)]
pub enum KeyCode {
    Escape,
    F1,
    F2,
    F3,
    F4,
    F5,
    F6,
    F7,
    F8,
    F9,
    F10,
    F11,
    F12,
    PrintScreen,
    SysRq,
    ScrollLock,
    PauseBreak,
    Oem8,
    Key1,
    Key2,
    Key3,
    Key4,
    Key5,
    Key6,
    Key7,
    Key8,
    Key9,
    Key0,
    OemMinus,
    OemPlus,
    Backspace,
    Insert,
    Home,
    PageUp,
    NumpadLock,
    NumpadDivide,
    NumpadMultiply,
    NumpadSubtract,
    Tab,
    Q,
    W,
    E,
    R,
    T,
    Y,
    U,
    I,
    O,
    P,
    Oem4,
    Oem6,
    Oem5,
    Oem7,
    Delete,
    End,
    PageDown,
    Numpad7,
    Numpad8,
    Numpad9,
    NumpadAdd,
    CapsLock,
    A,
    S,
    D,
    F,
    G,
    H,
    J,
    K,
    L,
    Oem1,
    Oem3,
    Return,
    Numpad4,
    Numpad5,
    Numpad6,
    LShift,
    Z,
    X,
    C,
    V,
    B,
    N,
    M,
    OemComma,
    OemPeriod,
    Oem2,
    RShift,
    ArrowUp,
    Numpad1,
    Numpad2,
    Numpad3,
    NumpadEnter,
    LControl,
    LWin,
    LAlt,
    Spacebar,
    RAltGr,
    RWin,
    Apps,
    RControl,
    ArrowLeft,
    ArrowDown,
    ArrowRight,
    Numpad0,
    NumpadPeriod,
    Oem9,
    Oem10,
    Oem11,
    Oem12,
    Oem13,
    PrevTrack,
    NextTrack,
    Mute,
    Calculator,
    Play,
    Stop,
    VolumeDown,
    VolumeUp,
    WWWHome,
    PowerOnTestOk,
    TooManyKeys,
    RControl2,
    RAlt2,
}

/// Whether a key went up or down.
#[derive(Debug, PartialEq, Eq, Structural, Copy, Clone)]
pub enum KeyState {
    Up,
    Down,
}

/// Something that happened to a key.
#[derive(Debug, PartialEq, Eq, Structural, Clone)]
pub struct KeyEvent {
    /// The key.
    pub code: KeyCode,
    /// What happened to it.
    pub state: KeyState,
}

/// A keyboard layout: what a key means, given the modifier keys.
pub trait KeyboardLayout {
    /// What `keycode` means under `modifiers`.
    spec fn decode(&self, keycode: KeyCode, modifiers: Modifiers) -> DecodedKey;

    /// What `keycode` means under `modifiers`: a character where it has one,
    /// the raw key where it has none.
    fn map_keycode(&self, keycode: KeyCode, modifiers: &Modifiers) -> (key: DecodedKey)
        ensures
            key == self.decode(keycode, *modifiers),
    ;
}

/// A scan code set: how the bytes that a keyboard sends become key events.
/// A set remembers what it has seen of a code that takes several bytes.
pub trait ScancodeSet: Sized {
    /// The set after it has taken in `code`.
    spec fn advanced(&self, code: u8) -> Self;

    /// What `code` completes, if anything.
    spec fn decoded(&self, code: u8) -> Result<Option<KeyEvent>, Error>;

    /// Takes in the next byte from the keyboard.
    fn advance_state(&mut self, code: u8) -> (event: Result<Option<KeyEvent>, Error>)
        ensures
            *final(self) == old(self).advanced(code),
            event == old(self).decoded(code),
    ;
}

/// The modifier keys that are held down and the locks that are on.
#[derive(Debug, Default, Clone, Eq, PartialEq, Structural, Hash)]
pub struct Modifiers {
    pub lshift: bool,
    pub rshift: bool,
    pub lctrl: bool,
    pub rctrl: bool,
    pub numlock: bool,
    pub capslock: bool,
    pub lalt: bool,
    pub ralt: bool,
    /// The hidden control key that a keyboard sends ahead of Pause.
    pub rctrl2: bool,
}

/// A decoded key: a character, or a key that stands for none.
#[derive(Debug, PartialEq, Eq, Structural, Copy, Clone)]
pub enum DecodedKey {
    RawKey(KeyCode),
    Unicode(char),
}

impl<L, S> Keyboard<L, S> where L: KeyboardLayout, S: ScancodeSet {
    /// A keyboard with the given scan code set and layout, no modifier held
    /// and Num Lock on.
    pub fn new(scancode_set: S, layout: L) -> (keyboard: Keyboard<L, S>)
        ensures
            keyboard.scancode_set == scancode_set,
            keyboard.event_decoder.layout == layout,
            keyboard.event_decoder.modifiers == Modifiers::initial(),
    {
        Keyboard { scancode_set, event_decoder: EventDecoder::new(layout) }
    }

    /// Takes in a byte from the keyboard; hands out the key event that the
    /// byte completes.
    pub fn add_byte(&mut self, byte: u8) -> (event: Result<Option<KeyEvent>, Error>)
        ensures
            final(self).scancode_set == old(self).scancode_set.advanced(byte),
            final(self).event_decoder == old(self).event_decoder,
            event == old(self).scancode_set.decoded(byte),
    {
        self.scancode_set.advance_state(byte)
    }

    /// Takes a key event into account and says what was typed, if anything.
    pub fn process_keyevent(&mut self, ev: KeyEvent) -> (key: Option<DecodedKey>)
        ensures
            final(self).scancode_set == old(self).scancode_set,
            final(self).event_decoder.layout == old(self).event_decoder.layout,
            final(self).event_decoder.modifiers == old(self).event_decoder.modifiers.after(ev),
            key == old(self).event_decoder.typed(ev),
    {
        self.event_decoder.process_keyevent(ev)
    }
}

impl<L> EventDecoder<L> where L: KeyboardLayout {
    /// What the event `ev` types: nothing when a key goes up; the raw key
    /// when a modifier or lock key goes down, where Num Lock after the
    /// hidden control key is Pause; and what the layout says for any other
    /// key.
    pub open spec fn typed(self, ev: KeyEvent) -> Option<DecodedKey> {
        if ev.state == KeyState::Up {
            None
        } else if ev.code == KeyCode::NumpadLock && self.modifiers.rctrl2 {
            Some(DecodedKey::RawKey(KeyCode::PauseBreak))
        } else if is_modifier(ev.code) {
            Some(DecodedKey::RawKey(ev.code))
        } else {
            Some(self.layout.decode(ev.code, self.modifiers))
        }
    }

    /// A decoder for `layout`, with no modifier held and Num Lock on.
    pub fn new(layout: L) -> (decoder: EventDecoder<L>)
        ensures
            decoder.layout == layout,
            decoder.modifiers == Modifiers::initial(),
    {
        EventDecoder {
            modifiers: Modifiers {
                lshift: false,
                rshift: false,
                lctrl: false,
                rctrl: false,
                numlock: true,
                capslock: false,
                lalt: false,
                ralt: false,
                rctrl2: false,
            },
            layout,
        }
    }

    /// Takes a key event into account and says what was typed, if anything.
    pub fn process_keyevent(&mut self, ev: KeyEvent) -> (key: Option<DecodedKey>)
        ensures
            final(self).layout == old(self).layout,
            final(self).modifiers == old(self).modifiers.after(ev),
            key == old(self).typed(ev),
    {
        match ev {
            KeyEvent { code: KeyCode::LShift, state: KeyState::Down } => {
                self.modifiers.lshift = true;
                Some(DecodedKey::RawKey(KeyCode::LShift))
            },
            KeyEvent { code: KeyCode::RShift, state: KeyState::Down } => {
                self.modifiers.rshift = true;
                Some(DecodedKey::RawKey(KeyCode::RShift))
            },
            KeyEvent { code: KeyCode::LShift, state: KeyState::Up } => {
                self.modifiers.lshift = false;
                None
            },
            KeyEvent { code: KeyCode::RShift, state: KeyState::Up } => {
                self.modifiers.rshift = false;
                None
            },
            KeyEvent { code: KeyCode::CapsLock, state: KeyState::Down } => {
                self.modifiers.capslock = !self.modifiers.capslock;
                Some(DecodedKey::RawKey(KeyCode::CapsLock))
            },
            KeyEvent { code: KeyCode::NumpadLock, state: KeyState::Down } => {
                if self.modifiers.rctrl2 {
                    Some(DecodedKey::RawKey(KeyCode::PauseBreak))
                } else {
                    self.modifiers.numlock = !self.modifiers.numlock;
                    Some(DecodedKey::RawKey(KeyCode::NumpadLock))
                }
            },
            KeyEvent { code: KeyCode::LControl, state: KeyState::Down } => {
                self.modifiers.lctrl = true;
                Some(DecodedKey::RawKey(KeyCode::LControl))
            },
            KeyEvent { code: KeyCode::LControl, state: KeyState::Up } => {
                self.modifiers.lctrl = false;
                None
            },
            KeyEvent { code: KeyCode::RControl, state: KeyState::Down } => {
                self.modifiers.rctrl = true;
                Some(DecodedKey::RawKey(KeyCode::RControl))
            },
            KeyEvent { code: KeyCode::RControl, state: KeyState::Up } => {
                self.modifiers.rctrl = false;
                None
            },
            KeyEvent { code: KeyCode::LAlt, state: KeyState::Down } => {
                self.modifiers.lalt = true;
                Some(DecodedKey::RawKey(KeyCode::LAlt))
            },
            KeyEvent { code: KeyCode::LAlt, state: KeyState::Up } => {
                self.modifiers.lalt = false;
                None
            },
            KeyEvent { code: KeyCode::RAltGr, state: KeyState::Down } => {
                self.modifiers.ralt = true;
                Some(DecodedKey::RawKey(KeyCode::RAltGr))
            },
            KeyEvent { code: KeyCode::RAltGr, state: KeyState::Up } => {
                self.modifiers.ralt = false;
                None
            },
            KeyEvent { code: KeyCode::RControl2, state: KeyState::Down } => {
                self.modifiers.rctrl2 = true;
                Some(DecodedKey::RawKey(KeyCode::RControl2))
            },
            KeyEvent { code: KeyCode::RControl2, state: KeyState::Up } => {
                self.modifiers.rctrl2 = false;
                None
            },
            KeyEvent { code: c, state: KeyState::Down } => Some(
                self.layout.map_keycode(c, &self.modifiers),
            ),
            _ => None,
        }
    }
}

/// Whether `code` is a modifier or lock key, which the decoder handles
/// itself.
pub open spec fn is_modifier(code: KeyCode) -> bool {
    code == KeyCode::LShift || code == KeyCode::RShift || code == KeyCode::CapsLock || code
        == KeyCode::NumpadLock || code == KeyCode::LControl || code == KeyCode::RControl || code
        == KeyCode::LAlt || code == KeyCode::RAltGr || code == KeyCode::RControl2
}

impl KeyEvent {
    /// The event that `code` went `state`.
    pub fn new(code: KeyCode, state: KeyState) -> (event: KeyEvent)
        ensures
            event.code == code,
            event.state == state,
    {
        KeyEvent { code, state }
    }
}

impl Modifiers {
    /// No modifier held, Num Lock on, Caps Lock off.
    pub open spec fn initial() -> Modifiers {
        Modifiers {
            lshift: false,
            rshift: false,
            lctrl: false,
            rctrl: false,
            numlock: true,
            capslock: false,
            lalt: false,
            ralt: false,
            rctrl2: false,
        }
    }

    /// The modifiers after the event `ev`: a modifier key is held from when
    /// it goes down until it goes up, and a lock changes each time its key
    /// goes down, but Num Lock not while the hidden control key is held.
    pub open spec fn after(self, ev: KeyEvent) -> Modifiers {
        let down = ev.state == KeyState::Down;
        Modifiers {
            lshift: if ev.code == KeyCode::LShift {
                down
            } else {
                self.lshift
            },
            rshift: if ev.code == KeyCode::RShift {
                down
            } else {
                self.rshift
            },
            lctrl: if ev.code == KeyCode::LControl {
                down
            } else {
                self.lctrl
            },
            rctrl: if ev.code == KeyCode::RControl {
                down
            } else {
                self.rctrl
            },
            numlock: if ev.code == KeyCode::NumpadLock && down && !self.rctrl2 {
                !self.numlock
            } else {
                self.numlock
            },
            capslock: if ev.code == KeyCode::CapsLock && down {
                !self.capslock
            } else {
                self.capslock
            },
            lalt: if ev.code == KeyCode::LAlt {
                down
            } else {
                self.lalt
            },
            ralt: if ev.code == KeyCode::RAltGr {
                down
            } else {
                self.ralt
            },
            rctrl2: if ev.code == KeyCode::RControl2 {
                down
            } else {
                self.rctrl2
            },
        }
    }

    /// Whether a shift key is held.
    pub fn is_shifted(&self) -> (shifted: bool)
        ensures
            shifted == (self.lshift || self.rshift),
    {
        self.lshift || self.rshift
    }

    /// Whether letters come out as capitals: shift and Caps Lock undo each
    /// other.
    pub fn is_caps(&self) -> (caps: bool)
        ensures
            caps == ((self.lshift || self.rshift) != self.capslock),
    {
        self.is_shifted() != self.capslock
    }
}

} // verus!
