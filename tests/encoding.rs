use switchcontroller::button::{Button, Stick};
use switchcontroller::command::{
    command_line, hold_command, press_command, release_command, sleep_command, state_command,
    stick_command,
};
use switchcontroller::decimal::Decimal;
use switchcontroller::state::ControllerState;

fn dec(negative: bool, digits: u128, scale: u32) -> Decimal {
    Decimal::new(negative, digits, scale)
}

#[test]
fn button_display() {
    assert_eq!(Button::A.as_str(), "a");
    assert_eq!(Button::ZL.as_str(), "zl");
    assert_eq!(Button::DpadUp.as_str(), "dpad_up");
}

#[test]
fn state_command_no_sticks() {
    let state = ControllerState::new();
    assert_eq!(state.to_command(), "STATE 000000000000000000");
}

#[test]
fn state_command_with_buttons() {
    let mut state = ControllerState::new();
    state.set_button(Button::A, true).set_button(Button::X, true).set_button(Button::Y, true);
    assert_eq!(state.to_command(), "STATE 101100000000000000");
}

#[test]
fn state_command_with_left_stick() {
    let mut state = ControllerState::new();
    state.set_button(Button::A, true);
    state.set_left_stick(dec(false, 5, 1), dec(true, 10, 1));
    assert_eq!(state.to_command(), "STATE 100000000000000000 0.5 -1");
}

#[test]
fn state_command_with_both_sticks() {
    let mut state = ControllerState::new();
    state.set_button(Button::A, true);
    state.set_left_stick(dec(false, 0, 1), dec(false, 0, 1));
    state.set_right_stick(dec(true, 10, 1), dec(false, 0, 1));
    assert_eq!(state.to_command(), "STATE 100000000000000000 0 0 -1 0");
}

#[test]
fn state_command_with_right_stick_only() {
    let mut state = ControllerState::new();
    state.set_right_stick(dec(true, 10, 1), dec(false, 0, 1));
    assert_eq!(state.to_command(), "STATE 000000000000000000 0.0 0.0 -1 0");
}

#[test]
fn button_table_is_one_to_one() {
    let all = Button::all();
    assert_eq!(all.len(), 18);
    let names = [
        "a", "b", "x", "y", "l", "r", "zl", "zr", "plus", "minus", "home", "capture", "l_stick",
        "r_stick", "dpad_up", "dpad_down", "dpad_left", "dpad_right",
    ];
    for (i, b) in all.iter().enumerate() {
        assert_eq!(b.bit_index(), i);
        assert_eq!(Button::from_bit(i), *b);
        assert_eq!(b.as_str(), names[i]);
    }
}

#[test]
fn single_button_sets_one_bit() {
    for (i, b) in Button::all().into_iter().enumerate() {
        let mut state = ControllerState::new();
        state.set_button(b, true);
        let cmd = state.to_command();
        let bits = &cmd["STATE ".len()..];
        assert_eq!(bits.len(), 18);
        for (j, c) in bits.chars().enumerate() {
            assert_eq!(c, if i == j { '1' } else { '0' });
        }
    }
}

#[test]
fn last_button_is_last_bit() {
    let mut state = ControllerState::new();
    state.set_button(Button::DpadRight, true);
    assert_eq!(state.to_command(), "STATE 000000000000000001");
}

#[test]
fn released_button_clears_its_bit() {
    let mut state = ControllerState::new();
    state.set_button(Button::B, true).set_button(Button::B, false);
    assert_eq!(state.to_command(), "STATE 000000000000000000");
}

#[test]
fn to_command_twice_is_identical() {
    let mut state = ControllerState::new();
    state.set_button(Button::Home, true);
    state.set_left_stick(dec(false, 25, 2), dec(true, 75, 2));
    let first = state.to_command();
    let second = state.to_command();
    assert_eq!(first, second);
    assert_eq!(first, "STATE 000000000010000000 0.25 -0.75");
}

#[test]
fn left_stick_only_has_no_right_pair() {
    let mut state = ControllerState::new();
    state.set_left_stick(dec(false, 1, 0), dec(false, 0, 0));
    assert_eq!(state.to_command(), "STATE 000000000000000000 1 0");
}

#[test]
fn later_stick_value_overwrites() {
    let mut state = ControllerState::new();
    state.set_right_stick(dec(false, 1, 0), dec(false, 1, 0));
    state.set_right_stick(dec(false, 5, 1), dec(true, 5, 1));
    assert_eq!(state.to_command(), "STATE 000000000000000000 0.0 0.0 0.5 -0.5");
}

#[test]
fn decimal_text_is_minimal() {
    assert_eq!(dec(false, 0, 0).to_text(), "0");
    assert_eq!(dec(false, 0, 3).to_text(), "0");
    assert_eq!(dec(true, 0, 0).to_text(), "-0");
    assert_eq!(dec(true, 1000, 3).to_text(), "-1");
    assert_eq!(dec(false, 5, 1).to_text(), "0.5");
    assert_eq!(dec(false, 120, 2).to_text(), "1.2");
    assert_eq!(dec(false, 1, 3).to_text(), "0.001");
    assert_eq!(dec(false, 12345, 2).to_text(), "123.45");
    assert_eq!(dec(false, 100, 0).to_text(), "100");
    assert_eq!(dec(true, 33333334, 8).to_text(), "-0.33333334");
    assert_eq!(
        dec(false, u128::MAX, 0).to_text(),
        "340282366920938463463374607431768211455"
    );
}

#[test]
fn press_sends_one_line() {
    assert_eq!(command_line(&press_command(&[Button::A])), "PRESS a\n");
}

#[test]
fn button_commands_join_names() {
    let buttons = [Button::ZR, Button::A, Button::DpadLeft];
    assert_eq!(press_command(&buttons), "PRESS zr a dpad_left");
    assert_eq!(hold_command(&buttons), "HOLD zr a dpad_left");
    assert_eq!(release_command(&[Button::ZR]), "RELEASE zr");
    assert_eq!(press_command(&[]), "PRESS ");
}

#[test]
fn stick_command_uses_plain_format() {
    assert_eq!(stick_command(Stick::Left, dec(false, 10, 1), dec(false, 0, 1)), "STICK l_stick 1 0");
    assert_eq!(stick_command(Stick::Right, dec(false, 0, 0), dec(false, 0, 0)), "STICK r_stick 0 0");
    assert_eq!(stick_command(Stick::Right, dec(true, 5, 1), dec(false, 1, 0)), "STICK r_stick -0.5 1");
}

#[test]
fn stick_names() {
    assert_eq!(Stick::Left.as_str(), "l_stick");
    assert_eq!(Stick::Right.as_str(), "r_stick");
}

#[test]
fn state_and_sleep_commands() {
    let mut state = ControllerState::new();
    state.set_button(Button::A, true);
    assert_eq!(state_command(&state), "STATE 100000000000000000");
    assert_eq!(sleep_command(dec(false, 10, 1)), "SLEEP 1");
    assert_eq!(sleep_command(dec(false, 1, 1)), "SLEEP 0.1");
    assert_eq!(command_line(&sleep_command(dec(false, 15, 1))), "SLEEP 1.5\n");
}

#[test]
fn decimal_reads_host_text() {
    assert_eq!(Decimal::from_text("-0.25"), Some(dec(true, 25, 2)));
    assert_eq!(Decimal::from_text("0.5"), Some(dec(false, 5, 1)));
    assert_eq!(Decimal::from_text("-1"), Some(dec(true, 1, 0)));
    assert_eq!(Decimal::from_text("-0"), Some(dec(true, 0, 0)));
    assert_eq!(Decimal::from_text("007.10"), Some(dec(false, 710, 2)));
    assert_eq!(
        Decimal::from_text("340282350000000000000000000000000000000"),
        Some(dec(false, 340282350000000000000000000000000000000, 0))
    );
}

#[test]
fn decimal_rejects_other_forms() {
    assert_eq!(Decimal::from_text(""), None);
    assert_eq!(Decimal::from_text("-"), None);
    assert_eq!(Decimal::from_text("1."), None);
    assert_eq!(Decimal::from_text(".5"), None);
    assert_eq!(Decimal::from_text("1.2.3"), None);
    assert_eq!(Decimal::from_text("NaN"), None);
    assert_eq!(Decimal::from_text("inf"), None);
    assert_eq!(Decimal::from_text("+1"), None);
    assert_eq!(Decimal::from_text("1e5"), None);
    assert_eq!(Decimal::from_text("340282366920938463463374607431768211456"), None);
}

#[test]
fn decimal_text_reads_back() {
    for t in ["0", "-0", "0.5", "-1", "123.45", "0.001", "-0.33333334"] {
        assert_eq!(Decimal::from_text(t).unwrap().to_text(), t);
    }
}
