//! Keys that the hotkey listener tells apart, their virtual-key codes, and
//! the decisions taken on each key transition.
use vstd::prelude::*;

verus! {

/// A key of the keyboard, by its virtual-key code.
#[derive(Debug, Eq, PartialEq, Structural, Hash, Copy, Clone)]
pub enum KeyboardKey {
    CKey,
    VKey,
    LControlKey,
    RControlKey,
    OtherKey(u64),
}

/// The virtual-key code of a key.
pub open spec fn key_code(key: KeyboardKey) -> u64 {
    match key {
        KeyboardKey::CKey => 0x43,
        KeyboardKey::VKey => 0x56,
        KeyboardKey::LControlKey => 0xA2,
        KeyboardKey::RControlKey => 0xA3,
        KeyboardKey::OtherKey(code) => code,
    }
}

/// The key that a virtual-key code stands for.
pub open spec fn key_of(code: u64) -> KeyboardKey {
    if code == 0x43 {
        KeyboardKey::CKey
    } else if code == 0x56 {
        KeyboardKey::VKey
    } else if code == 0xA2 {
        KeyboardKey::LControlKey
    } else if code == 0xA3 {
        KeyboardKey::RControlKey
    } else {
        KeyboardKey::OtherKey(code)
    }
}

impl From<KeyboardKey> for u64 {
    fn from(key: KeyboardKey) -> u64 {
        match key {
            KeyboardKey::CKey => 0x43,
            KeyboardKey::VKey => 0x56,
            KeyboardKey::LControlKey => 0xA2,
            KeyboardKey::RControlKey => 0xA3,
            KeyboardKey::OtherKey(code) => code,
        }
    }
}

impl vstd::std_specs::convert::FromSpecImpl<KeyboardKey> for u64 {
    open spec fn obeys_from_spec() -> bool {
        true
    }

    open spec fn from_spec(v: KeyboardKey) -> u64 {
        key_code(v)
    }
}

impl From<u64> for KeyboardKey {
    fn from(code: u64) -> KeyboardKey {
        if code == 0x43 {
            KeyboardKey::CKey
        } else if code == 0x56 {
            KeyboardKey::VKey
        } else if code == 0xA2 {
            KeyboardKey::LControlKey
        } else if code == 0xA3 {
            KeyboardKey::RControlKey
        } else {
            KeyboardKey::OtherKey(code)
        }
    }
}

impl vstd::std_specs::convert::FromSpecImpl<u64> for KeyboardKey {
    open spec fn obeys_from_spec() -> bool {
        true
    }

    open spec fn from_spec(v: u64) -> KeyboardKey {
        key_of(v)
    }
}

/// Reading a code as a key and back gives the code.
pub proof fn lemma_code_round_trip(code: u64)
    ensures
        key_code(key_of(code)) == code,
{
}

/// Which control keys are held down.
#[derive(Debug, Eq, PartialEq, Structural, Copy, Clone)]
pub struct ControlState {
    pub left: bool,
    pub right: bool,
}

/// A key went down or up, or something else happened to it.
#[derive(Debug, Eq, PartialEq, Structural, Copy, Clone)]
pub enum KeyTransition {
    Down,
    Up,
    Other,
}

/// What the listener does in answer to a key transition.
#[derive(Debug, Eq, PartialEq, Structural, Copy, Clone)]
pub enum HotkeyReaction {
    Nothing,
    /// A control key went down: ask the worker to load.
    RequestLoad,
    /// Copy chord: read the clipboard once it is settled and ask the worker
    /// to store it.
    CaptureAndStore,
    /// Paste chord: put the cached content, if any, on the clipboard.
    Paste,
}

/// The control state and reaction after `transition` of `key`.
pub open spec fn hotkey_step(state: ControlState, transition: KeyTransition, key: KeyboardKey) -> (
    ControlState,
    HotkeyReaction,
) {
    let held = state.left || state.right;
    match transition {
        KeyTransition::Down => match key {
            KeyboardKey::LControlKey => (
                ControlState { left: true, ..state },
                HotkeyReaction::RequestLoad,
            ),
            KeyboardKey::RControlKey => (
                ControlState { right: true, ..state },
                HotkeyReaction::RequestLoad,
            ),
            KeyboardKey::CKey => (state, if held {
                HotkeyReaction::CaptureAndStore
            } else {
                HotkeyReaction::Nothing
            }),
            KeyboardKey::VKey => (state, if held {
                HotkeyReaction::Paste
            } else {
                HotkeyReaction::Nothing
            }),
            KeyboardKey::OtherKey(_) => (state, HotkeyReaction::Nothing),
        },
        KeyTransition::Up => match key {
            KeyboardKey::LControlKey => (ControlState { left: false, ..state }, HotkeyReaction::Nothing),
            KeyboardKey::RControlKey => (
                ControlState { right: false, ..state },
                HotkeyReaction::Nothing,
            ),
            _ => (state, HotkeyReaction::Nothing),
        },
        KeyTransition::Other => (state, HotkeyReaction::Nothing),
    }
}

impl ControlState {
    /// No control key held.
    pub fn new() -> (r: Self)
        ensures
            !r.left && !r.right,
    {
        ControlState { left: false, right: false }
    }

    /// Records `transition` of `key` and says how to react to it.
    pub fn on_key(&mut self, transition: KeyTransition, key: KeyboardKey) -> (r: HotkeyReaction)
        ensures
            (*final(self), r) == hotkey_step(*old(self), transition, key),
    {
        let held = self.left || self.right;
        match transition {
            KeyTransition::Down => match key {
                KeyboardKey::LControlKey => {
                    self.left = true;
                    HotkeyReaction::RequestLoad
                },
                KeyboardKey::RControlKey => {
                    self.right = true;
                    HotkeyReaction::RequestLoad
                },
                KeyboardKey::CKey => if held {
                    HotkeyReaction::CaptureAndStore
                } else {
                    HotkeyReaction::Nothing
                },
                KeyboardKey::VKey => if held {
                    HotkeyReaction::Paste
                } else {
                    HotkeyReaction::Nothing
                },
                KeyboardKey::OtherKey(_) => HotkeyReaction::Nothing,
            },
            KeyTransition::Up => {
                match key {
                    KeyboardKey::LControlKey => {
                        self.left = false;
                    },
                    KeyboardKey::RControlKey => {
                        self.right = false;
                    },
                    _ => {},
                }
                HotkeyReaction::Nothing
            },
            KeyTransition::Other => HotkeyReaction::Nothing,
        }
    }
}

} // verus!
