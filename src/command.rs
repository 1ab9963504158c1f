use vstd::prelude::*;

use crate::button::{Button, Stick};
use crate::decimal::Decimal;
use crate::state::{pair_text, ControllerState};

verus! {

/// The wire names of `buttons`, in the order given, separated by single spaces.
pub open spec fn joined_names(buttons: Seq<Button>) -> Seq<char>
    decreases buttons.len(),
{
    if buttons.len() == 0 {
        Seq::empty()
    } else if buttons.len() == 1 {
        buttons[0].wire_name()
    } else {
        joined_names(buttons.drop_last()) + seq![' '] + buttons.last().wire_name()
    }
}

/// `verb`, a space, then the names of `buttons`.
fn buttons_command(verb: &str, buttons: &[Button]) -> (r: String)
    ensures
        r@ == verb@ + seq![' '] + joined_names(buttons@),
{
    proof {
        reveal_strlit(" ");
    }
    let mut cmd = String::from_str(verb);
    cmd.append(" ");
    let ghost head = cmd@;
    let mut i: usize = 0;
    while i < buttons.len()
        invariant
            i <= buttons@.len(),
            cmd@ == head + joined_names(buttons@.subrange(0, i as int)),
        decreases buttons.len() - i,
    {
        let ghost prev = cmd@;
        proof {
            reveal_strlit(" ");
        }
        if i > 0 {
            cmd.append(" ");
        }
        cmd.append(buttons[i].as_str());
        proof {
            let s = buttons@.subrange(0, i + 1);
            assert(s.drop_last() == buttons@.subrange(0, i as int));
            assert(s.last() == buttons@[i as int]);
            if i == 0 {
                assert(joined_names(s) == s[0].wire_name());
                assert(joined_names(buttons@.subrange(0, 0)) == Seq::<char>::empty());
                assert(cmd@ =~= head + joined_names(s));
            } else {
                assert(joined_names(s) == joined_names(s.drop_last()) + seq![' '] + s.last().wire_name());
                assert(cmd@ =~= prev + seq![' '] + s.last().wire_name());
                assert(cmd@ =~= head + joined_names(s));
            }
        }
        i = i + 1;
    }
    assert(buttons@.subrange(0, buttons@.len() as int) == buttons@);
    cmd
}

/// The `PRESS` command: press and release `buttons`.
pub fn press_command(buttons: &[Button]) -> (r: String)
    ensures
        r@ == "PRESS "@ + joined_names(buttons@),
{
    proof {
        reveal_strlit("PRESS");
        reveal_strlit("PRESS ");
    }
    buttons_command("PRESS", buttons)
}

/// The `HOLD` command: keep `buttons` down until they are released.
pub fn hold_command(buttons: &[Button]) -> (r: String)
    ensures
        r@ == "HOLD "@ + joined_names(buttons@),
{
    proof {
        reveal_strlit("HOLD");
        reveal_strlit("HOLD ");
    }
    buttons_command("HOLD", buttons)
}

/// The `RELEASE` command: let go of held `buttons`.
pub fn release_command(buttons: &[Button]) -> (r: String)
    ensures
        r@ == "RELEASE "@ + joined_names(buttons@),
{
    proof {
        reveal_strlit("RELEASE");
        reveal_strlit("RELEASE ");
    }
    buttons_command("RELEASE", buttons)
}

/// The `STICK` command: move `stick` to the position (`horizontal`, `vertical`).
pub fn stick_command(stick: Stick, horizontal: Decimal, vertical: Decimal) -> (r: String)
    ensures
        r@ == "STICK "@ + stick.wire_name() + pair_text((horizontal, vertical)),
{
    let mut cmd = String::from_str("STICK ");
    cmd.append(stick.as_str());
    let h = horizontal.to_text();
    let v = vertical.to_text();
    proof {
        reveal_strlit(" ");
    }
    cmd.append(" ");
    cmd.append(h.as_str());
    cmd.append(" ");
    cmd.append(v.as_str());
    cmd
}

/// The `STATE` command for `state`.
pub fn state_command(state: &ControllerState) -> (r: String)
    ensures
        r@ == state.command(),
{
    state.to_command()
}

/// The `SLEEP` command: the device pauses its own processing for `seconds`.
pub fn sleep_command(seconds: Decimal) -> (r: String)
    ensures
        r@ == "SLEEP "@ + seconds.text(),
{
    let mut cmd = String::from_str("SLEEP ");
    let t = seconds.to_text();
    cmd.append(t.as_str());
    cmd
}

/// A command as it is written to the transport: the command, then one `\n`.
pub fn command_line(cmd: &str) -> (r: String)
    ensures
        r@ == cmd@ + seq!['\n'],
{
    let mut line = String::from_str(cmd);
    proof {
        reveal_strlit("\n");
    }
    line.append("\n");
    line
}

} // verus!
