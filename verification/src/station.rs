use crate::enums::{Command, Component};
use vstd::prelude::*;

verus! {

/// The LED a station drives.
pub const STATION_LED: u8 = 0;

/// What a station does with its LED.
#[derive(Debug, Clone, Copy, PartialEq, Eq, Structural)]
pub enum LedAction {
    Toggle,
    On,
    Off,
}

/// What a station does with its LED for an authenticated command: commands
/// for another LED are left alone.
pub fn led_action(cmd: Command) -> (r: Option<LedAction>)
    ensures
        cmd == Command::Toggle(Component::Led(STATION_LED)) ==> r == Some(LedAction::Toggle),
        cmd == Command::On(Component::Led(STATION_LED)) ==> r == Some(LedAction::On),
        cmd == Command::Off(Component::Led(STATION_LED)) ==> r == Some(LedAction::Off),
        (cmd matches Command::Toggle(Component::Led(n)) && n != STATION_LED) ==> r is None,
        (cmd matches Command::On(Component::Led(n)) && n != STATION_LED) ==> r is None,
        (cmd matches Command::Off(Component::Led(n)) && n != STATION_LED) ==> r is None,
{
    match cmd {
        Command::Toggle(Component::Led(n)) => if n == STATION_LED {
            Some(LedAction::Toggle)
        } else {
            None
        },
        Command::On(Component::Led(n)) => if n == STATION_LED {
            Some(LedAction::On)
        } else {
            None
        },
        Command::Off(Component::Led(n)) => if n == STATION_LED {
            Some(LedAction::Off)
        } else {
            None
        },
    }
}

} // verus!
