//! Which of the movement keys are held down.

use vstd::prelude::*;

verus! {

/// Scan code of the key that moves forward.
pub const KEY_FRONT: u32 = 17;

/// Scan code of the key that moves backward.
pub const KEY_BACK: u32 = 31;

/// Scan code of the key that moves to the left.
pub const KEY_LEFT: u32 = 30;

/// Scan code of the key that moves to the right.
pub const KEY_RIGHT: u32 = 32;

/// Scan code of the key that moves up, or jumps.
pub const KEY_UP: u32 = 57;

/// Scan code of the key that moves down.
pub const KEY_DOWN: u32 = 29;

/// Scan code of the key that speeds the walk up.
pub const KEY_SHIFT: u32 = 42;

/// The state of the keyboard, as far as movement goes: for each movement
/// key, whether it is held down.
#[derive(Debug, Clone, Copy, PartialEq, Eq, Structural)]
pub struct Control {
    pub front: bool,
    pub back: bool,
    pub left: bool,
    pub right: bool,
    pub up: bool,
    pub down: bool,
    pub shift: bool,
}

impl Control {
    /// The state with no key held down.
    pub open spec fn released() -> Control {
        Control {
            front: false,
            back: false,
            left: false,
            right: false,
            up: false,
            down: false,
            shift: false,
        }
    }

    /// The state after the key with scan code `key` went down (`state` is
    /// true) or up. A key that is no movement key changes nothing.
    pub open spec fn with_key(self, key: u32, state: bool) -> Control {
        if key == KEY_FRONT {
            Control { front: state, ..self }
        } else if key == KEY_BACK {
            Control { back: state, ..self }
        } else if key == KEY_LEFT {
            Control { left: state, ..self }
        } else if key == KEY_RIGHT {
            Control { right: state, ..self }
        } else if key == KEY_UP {
            Control { up: state, ..self }
        } else if key == KEY_DOWN {
            Control { down: state, ..self }
        } else if key == KEY_SHIFT {
            Control { shift: state, ..self }
        } else {
            self
        }
    }

    /// Records that the key with scan code `key` went down (`state` is
    /// true) or up.
    pub fn update(&mut self, key: u32, state: bool)
        ensures
            *final(self) == old(self).with_key(key, state),
    {
        if key == KEY_FRONT {
            self.front = state;
        } else if key == KEY_BACK {
            self.back = state;
        } else if key == KEY_LEFT {
            self.left = state;
        } else if key == KEY_RIGHT {
            self.right = state;
        } else if key == KEY_UP {
            self.up = state;
        } else if key == KEY_DOWN {
            self.down = state;
        } else if key == KEY_SHIFT {
            self.shift = state;
        }
    }

    /// A key event for the state that a key is in already changes
    /// nothing, and the last event for a key decides.
    pub proof fn lemma_with_key_twice(self, key: u32, first: bool, second: bool)
        ensures
            self.with_key(key, first).with_key(key, second) == self.with_key(key, second),
    {
    }

    /// Events for different keys can be swapped.
    pub proof fn lemma_with_key_commutes(self, key: u32, state: bool, other: u32, other_state: bool)
        requires
            key != other,
        ensures
            self.with_key(key, state).with_key(other, other_state) == self.with_key(
                other,
                other_state,
            ).with_key(key, state),
    {
    }
}

impl Default for Control {
    /// The state with no key held down.
    fn default() -> (r: Self)
        ensures
            r == Control::released(),
    {
        Control {
            front: false,
            back: false,
            left: false,
            right: false,
            up: false,
            down: false,
            shift: false,
        }
    }
}

} // verus!
