//! The logical modifier keys (Control, Shift, Alt) and the physical key codes
//! that satisfy them.

use vstd::prelude::*;

verus! {

/// Key code for the left Control key.
pub const KEY_CONTROL_LEFT: u32 = 1;

/// Key code for the right Control key.
pub const KEY_CONTROL_RIGHT: u32 = 2;

/// Key code for the left Shift key.
pub const KEY_SHIFT_LEFT: u32 = 3;

/// Key code for the right Shift key.
pub const KEY_SHIFT_RIGHT: u32 = 4;

/// Key code for the left Alt key.
pub const KEY_ALT_LEFT: u32 = 5;

/// Key code for the right Alt key.
pub const KEY_ALT_RIGHT: u32 = 6;

/// A logical modifier qualifier. Each variant collapses the left/right
/// variants of the underlying physical keys into one logical modifier.
#[derive(Clone, Copy, Debug, PartialEq, Eq, Structural)]
pub enum Modifier {
    Control,
    Shift,
    Alt,
}

impl Modifier {
    /// Does `key_code` belong to the physical keys of this modifier?
    pub open spec fn spec_is(self, key_code: u32) -> bool {
        self.spec_key_codes().contains(key_code)
    }

    /// The physical key codes that activate this modifier.
    pub open spec fn spec_key_codes(self) -> Seq<u32> {
        match self {
            Modifier::Control => seq![KEY_CONTROL_LEFT, KEY_CONTROL_RIGHT],
            Modifier::Shift => seq![KEY_SHIFT_LEFT, KEY_SHIFT_RIGHT],
            Modifier::Alt => seq![KEY_ALT_LEFT, KEY_ALT_RIGHT],
        }
    }

    /// Does `key_code` belong to the physical keys of this modifier?
    pub fn is(&self, key_code: u32) -> (r: bool)
        ensures
            r == self.spec_is(key_code),
    {
        let codes = self.get_key_codes();
        let r = codes[0] == key_code || codes[1] == key_code;
        proof {
            assert(self.spec_key_codes().contains(key_code) <==> (self.spec_key_codes()[0]
                == key_code || self.spec_key_codes()[1] == key_code)) by {
                if self.spec_key_codes()[0] == key_code || self.spec_key_codes()[1] == key_code {
                    assert(self.spec_key_codes().contains(key_code));
                }
            }
        }
        r
    }

    /// The physical key codes that activate this modifier.
    pub fn get_key_codes(&self) -> (r: Vec<u32>)
        ensures
            r@ == self.spec_key_codes(),
            r@.len() == 2,
    {
        let r = match self {
            Modifier::Control => vec![KEY_CONTROL_LEFT, KEY_CONTROL_RIGHT],
            Modifier::Shift => vec![KEY_SHIFT_LEFT, KEY_SHIFT_RIGHT],
            Modifier::Alt => vec![KEY_ALT_LEFT, KEY_ALT_RIGHT],
        };
        proof {
            assert(r@ =~= self.spec_key_codes());
        }
        r
    }

    /// The logical modifier that a physical key belongs to, if any.
    pub open spec fn spec_from_key_code(key_code: u32) -> Option<Modifier> {
        if key_code == KEY_CONTROL_LEFT || key_code == KEY_CONTROL_RIGHT {
            Some(Modifier::Control)
        } else if key_code == KEY_SHIFT_LEFT || key_code == KEY_SHIFT_RIGHT {
            Some(Modifier::Shift)
        } else if key_code == KEY_ALT_LEFT || key_code == KEY_ALT_RIGHT {
            Some(Modifier::Alt)
        } else {
            None
        }
    }

    /// The logical modifier that a physical key belongs to, if any.
    pub fn from_key_code(key_code: u32) -> (r: Option<Modifier>)
        ensures
            r == Modifier::spec_from_key_code(key_code),
    {
        if key_code == KEY_CONTROL_LEFT || key_code == KEY_CONTROL_RIGHT {
            Some(Modifier::Control)
        } else if key_code == KEY_SHIFT_LEFT || key_code == KEY_SHIFT_RIGHT {
            Some(Modifier::Shift)
        } else if key_code == KEY_ALT_LEFT || key_code == KEY_ALT_RIGHT {
            Some(Modifier::Alt)
        } else {
            None
        }
    }

    /// The fixed display label of this modifier.
    pub open spec fn spec_to_str(self) -> Seq<char> {
        match self {
            Modifier::Control => "ctrl"@,
            Modifier::Shift => "shift"@,
            Modifier::Alt => "alt"@,
        }
    }

    /// The fixed display label of this modifier.
    pub fn to_str(&self) -> (r: &'static str)
        ensures
            r@ == self.spec_to_str(),
    {
        match self {
            Modifier::Control => "ctrl",
            Modifier::Shift => "shift",
            Modifier::Alt => "alt",
        }
    }
}

/// All modifiers, in the fixed canonical order.
pub open spec fn spec_available_modifiers() -> Seq<Modifier> {
    seq![Modifier::Control, Modifier::Shift, Modifier::Alt]
}

/// All modifiers, in the fixed canonical order.
pub fn available_modifiers() -> (r: Vec<Modifier>)
    ensures
        r@ == spec_available_modifiers(),
{
    let r = vec![Modifier::Control, Modifier::Shift, Modifier::Alt];
    proof {
        assert(r@ =~= spec_available_modifiers());
    }
    r
}

} // verus!
