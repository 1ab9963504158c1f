use vstd::prelude::*;

verus! {

/// A controller button.
#[derive(Debug, Clone, Copy, PartialEq, Eq, Hash, Structural)]
pub enum Button {
    A,
    B,
    X,
    Y,
    L,
    R,
    ZL,
    ZR,
    Plus,
    Minus,
    Home,
    Capture,
    LStick,
    RStick,
    DpadUp,
    DpadDown,
    DpadLeft,
    DpadRight,
}

/// Number of buttons, and of flags in a `STATE` bit string.
pub const BUTTON_COUNT: usize = 18;

impl Button {
    /// The button's position in the canonical bit order of a `STATE` command.
    pub open spec fn bit(self) -> nat {
        match self {
            Button::A => 0,
            Button::B => 1,
            Button::X => 2,
            Button::Y => 3,
            Button::L => 4,
            Button::R => 5,
            Button::ZL => 6,
            Button::ZR => 7,
            Button::Plus => 8,
            Button::Minus => 9,
            Button::Home => 10,
            Button::Capture => 11,
            Button::LStick => 12,
            Button::RStick => 13,
            Button::DpadUp => 14,
            Button::DpadDown => 15,
            Button::DpadLeft => 16,
            Button::DpadRight => 17,
        }
    }

    /// The button's token on the wire.
    pub open spec fn wire_name(self) -> Seq<char> {
        match self {
            Button::A => "a"@,
            Button::B => "b"@,
            Button::X => "x"@,
            Button::Y => "y"@,
            Button::L => "l"@,
            Button::R => "r"@,
            Button::ZL => "zl"@,
            Button::ZR => "zr"@,
            Button::Plus => "plus"@,
            Button::Minus => "minus"@,
            Button::Home => "home"@,
            Button::Capture => "capture"@,
            Button::LStick => "l_stick"@,
            Button::RStick => "r_stick"@,
            Button::DpadUp => "dpad_up"@,
            Button::DpadDown => "dpad_down"@,
            Button::DpadLeft => "dpad_left"@,
            Button::DpadRight => "dpad_right"@,
        }
    }

    /// The button whose bit position is `i`.
    pub open spec fn at_bit(i: nat) -> Button
        recommends
            i < 18,
    {
        if i == 0 {
            Button::A
        } else if i == 1 {
            Button::B
        } else if i == 2 {
            Button::X
        } else if i == 3 {
            Button::Y
        } else if i == 4 {
            Button::L
        } else if i == 5 {
            Button::R
        } else if i == 6 {
            Button::ZL
        } else if i == 7 {
            Button::ZR
        } else if i == 8 {
            Button::Plus
        } else if i == 9 {
            Button::Minus
        } else if i == 10 {
            Button::Home
        } else if i == 11 {
            Button::Capture
        } else if i == 12 {
            Button::LStick
        } else if i == 13 {
            Button::RStick
        } else if i == 14 {
            Button::DpadUp
        } else if i == 15 {
            Button::DpadDown
        } else if i == 16 {
            Button::DpadLeft
        } else {
            Button::DpadRight
        }
    }

    /// The wire name of the button.
    pub fn as_str(self) -> (r: &'static str)
        ensures
            r@ == self.wire_name(),
    {
        match self {
            Button::A => "a",
            Button::B => "b",
            Button::X => "x",
            Button::Y => "y",
            Button::L => "l",
            Button::R => "r",
            Button::ZL => "zl",
            Button::ZR => "zr",
            Button::Plus => "plus",
            Button::Minus => "minus",
            Button::Home => "home",
            Button::Capture => "capture",
            Button::LStick => "l_stick",
            Button::RStick => "r_stick",
            Button::DpadUp => "dpad_up",
            Button::DpadDown => "dpad_down",
            Button::DpadLeft => "dpad_left",
            Button::DpadRight => "dpad_right",
        }
    }

    /// The button's position in the canonical bit order.
    pub fn bit_index(self) -> (r: usize)
        ensures
            r == self.bit(),
            r < BUTTON_COUNT,
    {
        match self {
            Button::A => 0,
            Button::B => 1,
            Button::X => 2,
            Button::Y => 3,
            Button::L => 4,
            Button::R => 5,
            Button::ZL => 6,
            Button::ZR => 7,
            Button::Plus => 8,
            Button::Minus => 9,
            Button::Home => 10,
            Button::Capture => 11,
            Button::LStick => 12,
            Button::RStick => 13,
            Button::DpadUp => 14,
            Button::DpadDown => 15,
            Button::DpadLeft => 16,
            Button::DpadRight => 17,
        }
    }

    /// The button at bit position `i` of the canonical order.
    pub fn from_bit(i: usize) -> (r: Button)
        requires
            i < BUTTON_COUNT,
        ensures
            r == Button::at_bit(i as nat),
            r.bit() == i,
    {
        if i == 0 {
            Button::A
        } else if i == 1 {
            Button::B
        } else if i == 2 {
            Button::X
        } else if i == 3 {
            Button::Y
        } else if i == 4 {
            Button::L
        } else if i == 5 {
            Button::R
        } else if i == 6 {
            Button::ZL
        } else if i == 7 {
            Button::ZR
        } else if i == 8 {
            Button::Plus
        } else if i == 9 {
            Button::Minus
        } else if i == 10 {
            Button::Home
        } else if i == 11 {
            Button::Capture
        } else if i == 12 {
            Button::LStick
        } else if i == 13 {
            Button::RStick
        } else if i == 14 {
            Button::DpadUp
        } else if i == 15 {
            Button::DpadDown
        } else if i == 16 {
            Button::DpadLeft
        } else {
            Button::DpadRight
        }
    }

    /// All buttons, in the canonical bit order.
    pub fn all() -> (r: Vec<Button>)
        ensures
            r@.len() == BUTTON_COUNT,
            forall|i: int| 0 <= i < BUTTON_COUNT ==> (#[trigger] r@[i]).bit() == i,
    {
        let mut r: Vec<Button> = Vec::new();
        let mut i: usize = 0;
        while i < BUTTON_COUNT
            invariant
                i <= BUTTON_COUNT,
                r@.len() == i,
                forall|j: int| 0 <= j < i ==> (#[trigger] r@[j]).bit() == j,
            decreases BUTTON_COUNT - i,
        {
            r.push(Button::from_bit(i));
            i = i + 1;
        }
        r
    }
}

/// The bit positions are exactly 0 to 17, one for each button, and the wire
/// names of two different buttons differ: both tables are one to one.
pub proof fn lemma_button_table(b: Button, c: Button)
    ensures
        b.bit() < BUTTON_COUNT,
        Button::at_bit(b.bit()) == b,
        (b.bit() == c.bit()) == (b == c),
        (b.wire_name() == c.wire_name()) == (b == c),
{
    reveal_strlit("a");
    reveal_strlit("b");
    reveal_strlit("x");
    reveal_strlit("y");
    reveal_strlit("l");
    reveal_strlit("r");
    reveal_strlit("zl");
    reveal_strlit("zr");
    reveal_strlit("plus");
    reveal_strlit("minus");
    reveal_strlit("home");
    reveal_strlit("capture");
    reveal_strlit("l_stick");
    reveal_strlit("r_stick");
    reveal_strlit("dpad_up");
    reveal_strlit("dpad_down");
    reveal_strlit("dpad_left");
    reveal_strlit("dpad_right");
    // Two names of one length differ in their first or their last character.
    if b != c {
        let (x, y) = (b.wire_name(), c.wire_name());
        if x.len() == y.len() && x[0] == y[0] {
            assert(x[x.len() - 1] != y[y.len() - 1]);
        }
    }
}

/// Every bit position below 18 belongs to exactly the button that `at_bit` gives.
pub proof fn lemma_bit_positions(i: nat)
    requires
        i < BUTTON_COUNT,
    ensures
        Button::at_bit(i).bit() == i,
{
}

/// An analog stick.
#[derive(Debug, Clone, Copy, PartialEq, Eq, Hash, Structural)]
pub enum Stick {
    Left,
    Right,
}

impl Stick {
    /// The stick's token on the wire.
    pub open spec fn wire_name(self) -> Seq<char> {
        match self {
            Stick::Left => "l_stick"@,
            Stick::Right => "r_stick"@,
        }
    }

    /// The wire name of the stick.
    pub fn as_str(self) -> (r: &'static str)
        ensures
            r@ == self.wire_name(),
    {
        match self {
            Stick::Left => "l_stick",
            Stick::Right => "r_stick",
        }
    }
}

} // verus!
