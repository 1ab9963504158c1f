use vstd::prelude::*;

use crate::button::{Button, BUTTON_COUNT};
use crate::decimal::Decimal;

verus! {

/// A full controller snapshot, sent whole by a `STATE` command.
#[derive(Debug, Clone, Copy)]
pub struct ControllerState {
    /// One flag per button, at the button's bit position.
    pub buttons: [bool; 18],
    /// Left stick position (horizontal, vertical), each meant to lie in [-1, 1].
    pub left_stick: Option<(Decimal, Decimal)>,
    /// Right stick position (horizontal, vertical), each meant to lie in [-1, 1].
    pub right_stick: Option<(Decimal, Decimal)>,
}

/// The `'1'`/`'0'` text of a sequence of flags.
pub open spec fn bits_text(flags: Seq<bool>) -> Seq<char> {
    Seq::new(flags.len(), |i: int| if flags[i] { '1' } else { '0' })
}

/// A stick position as it follows a command: a space before each coordinate.
pub open spec fn pair_text(p: (Decimal, Decimal)) -> Seq<char> {
    seq![' '] + p.0.text() + seq![' '] + p.1.text()
}

/// The stick suffix of a `STATE` command. A right stick needs a left one before
/// it, so without a left stick it is preceded by the literal pair `0.0 0.0`.
pub open spec fn sticks_text(
    left: Option<(Decimal, Decimal)>,
    right: Option<(Decimal, Decimal)>,
) -> Seq<char> {
    match (left, right) {
        (Some(l), Some(r)) => pair_text(l) + pair_text(r),
        (Some(l), None) => pair_text(l),
        (None, Some(r)) => " 0.0 0.0"@ + pair_text(r),
        (None, None) => Seq::empty(),
    }
}

/// The flags of a state in which no button is pressed.
pub open spec fn released_flags() -> Seq<bool> {
    Seq::new(BUTTON_COUNT as nat, |i: int| false)
}

impl Default for ControllerState {
    fn default() -> (r: ControllerState)
        ensures
            r.buttons@ == released_flags(),
            r.left_stick is None,
            r.right_stick is None,
    {
        ControllerState::new()
    }
}

impl ControllerState {
    /// The `STATE` command for this snapshot.
    pub open spec fn command(&self) -> Seq<char> {
        "STATE "@ + bits_text(self.buttons@) + sticks_text(self.left_stick, self.right_stick)
    }

    /// A state with no button pressed and neither stick set.
    pub fn new() -> (r: ControllerState)
        ensures
            r.buttons@ == released_flags(),
            r.left_stick is None,
            r.right_stick is None,
    {
        let r = ControllerState { buttons: [false; 18], left_stick: None, right_stick: None };
        assert(r.buttons@ == released_flags());
        r
    }

    /// Sets whether `button` is pressed; everything else stays as it was.
    pub fn set_button(&mut self, button: Button, pressed: bool) -> (r: &mut Self)
        ensures
            r.buttons@ == old(self).buttons@.update(button.bit() as int, pressed),
            r.left_stick == old(self).left_stick,
            r.right_stick == old(self).right_stick,
            *final(self) == *final(r),
    {
        let idx = button.bit_index();
        self.buttons[idx] = pressed;
        self
    }

    /// Sets the left stick position; everything else stays as it was.
    pub fn set_left_stick(&mut self, horizontal: Decimal, vertical: Decimal) -> (r: &mut Self)
        ensures
            r.buttons == old(self).buttons,
            r.left_stick == Some((horizontal, vertical)),
            r.right_stick == old(self).right_stick,
            *final(self) == *final(r),
    {
        self.left_stick = Some((horizontal, vertical));
        self
    }

    /// Sets the right stick position; everything else stays as it was.
    pub fn set_right_stick(&mut self, horizontal: Decimal, vertical: Decimal) -> (r: &mut Self)
        ensures
            r.buttons == old(self).buttons,
            r.left_stick == old(self).left_stick,
            r.right_stick == Some((horizontal, vertical)),
            *final(self) == *final(r),
    {
        self.right_stick = Some((horizontal, vertical));
        self
    }

    /// The `STATE` command for this snapshot: the flags in bit order, then the
    /// stick positions that are set.
    pub fn to_command(&self) -> (r: String)
        ensures
            r@ == self.command(),
    {
        let mut cmd = String::new();
        cmd.append("STATE ");
        let mut i: usize = 0;
        while i < BUTTON_COUNT
            invariant
                i <= BUTTON_COUNT,
                self.buttons@.len() == BUTTON_COUNT,
                cmd@ == "STATE "@ + bits_text(self.buttons@.subrange(0, i as int)),
            decreases BUTTON_COUNT - i,
        {
            if self.buttons[i] {
                cmd.append("1");
            } else {
                cmd.append("0");
            }
            proof {
                reveal_strlit("1");
                reveal_strlit("0");
                assert(bits_text(self.buttons@.subrange(0, i + 1)) == bits_text(
                    self.buttons@.subrange(0, i as int),
                ) + seq![if self.buttons@[i as int] { '1' } else { '0' }]);
            }
            i = i + 1;
        }
        assert(self.buttons@.subrange(0, BUTTON_COUNT as int) == self.buttons@);
        let ghost head = cmd@;
        match (self.left_stick, self.right_stick) {
            (Some(l), Some(r)) => {
                append_pair(&mut cmd, l);
                append_pair(&mut cmd, r);
                assert(cmd@ == head + (pair_text(l) + pair_text(r)));
            },
            (Some(l), None) => {
                append_pair(&mut cmd, l);
            },
            (None, Some(r)) => {
                cmd.append(" 0.0 0.0");
                append_pair(&mut cmd, r);
                assert(cmd@ == head + (" 0.0 0.0"@ + pair_text(r)));
            },
            (None, None) => {
                assert(cmd@ == head + Seq::<char>::empty());
            },
        }
        cmd
    }
}

/// With exactly one button pressed, the bit string has 18 characters: a `'1'`
/// at that button's bit position and `'0'` everywhere else.
pub proof fn lemma_single_button_bits(b: Button)
    ensures
        bits_text(released_flags().update(b.bit() as int, true)).len() == BUTTON_COUNT,
        forall|i: int|
            0 <= i < BUTTON_COUNT ==> #[trigger] bits_text(
                released_flags().update(b.bit() as int, true),
            )[i] == if i == b.bit() {
                '1'
            } else {
                '0'
            },
{
}

/// Encoding does not change with repetition: two encodings of one state are
/// the same text.
pub proof fn lemma_command_repeatable(s: ControllerState, first: Seq<char>, second: Seq<char>)
    requires
        first == s.command(),
        second == s.command(),
    ensures
        first == second,
{
}

/// Appends a stick position, a space before each coordinate.
fn append_pair(cmd: &mut String, p: (Decimal, Decimal))
    ensures
        final(cmd)@ == old(cmd)@ + pair_text(p),
{
    proof {
        reveal_strlit(" ");
    }
    cmd.append(" ");
    let h = p.0.to_text();
    cmd.append(h.as_str());
    cmd.append(" ");
    let v = p.1.to_text();
    cmd.append(v.as_str());
    assert(cmd@ == old(cmd)@ + pair_text(p));
}

} // verus!
