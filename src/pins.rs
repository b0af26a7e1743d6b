//! Pins, pin states, the operations requested of the GPIO controller, and the
//! resolvers that turn single tokens into them.
use vstd::prelude::*;
use crate::token::{matches_word, to_u8, u8_of};

verus! {

/// The highest BCM pin number that the tool addresses.
pub const LAST_PIN_NUMBER: u8 = 27;

/// Number of addressable pins, `0..=LAST_PIN_NUMBER`.
pub const PIN_COUNT: u8 = 28;

/// Logical level of a pin: High is logical 1 (about 3.3 V), Low logical 0.
#[derive(Clone, Copy, Debug, PartialEq, Eq, Structural)]
pub enum PinState {
    High,
    Low,
}

/// Direction of a pin.
#[derive(Clone, Copy, Debug, PartialEq, Eq, Structural)]
pub enum PinMode {
    Input,
    Output,
}

/// A pin token resolved: one pin number (not yet range-checked), or every pin.
#[derive(Clone, Copy, Debug, PartialEq, Eq, Structural)]
pub enum PinSelector {
    All,
    Single(u8),
}

/// What a command does to each pin it names.
#[derive(Clone, Copy, Debug, PartialEq, Eq, Structural)]
pub enum Access {
    Read,
    Write(PinState),
}

/// One request to the GPIO controller.
#[derive(Clone, Copy, Debug, PartialEq, Eq, Structural)]
pub enum Op {
    /// Acquire the controller; `revert_on_close` says whether pins are put back
    /// as they were when it is released.
    Open { revert_on_close: bool },
    SetMode { pin: u8, mode: PinMode },
    /// Sample the level of a pin and report it (or report that it failed).
    Read { pin: u8 },
    /// Report the new level of a pin and drive it.
    Write { pin: u8, state: PinState },
}

/// A fatal error of one invocation.
#[derive(Debug, PartialEq, Eq)]
pub enum CommandError {
    MissingCommand,
    UnknownCommand(String),
    MissingState,
    InvalidState(String),
    MissingPin,
    /// A pin token that is not a number, or names a pin above `LAST_PIN_NUMBER`.
    InvalidPinToken(String),
    /// The GPIO controller could not be opened.
    HandleUnavailable,
}

/// `CommandError` with its tokens as character sequences.
pub enum Fault {
    MissingCommand,
    UnknownCommand(Seq<char>),
    MissingState,
    InvalidState(Seq<char>),
    MissingPin,
    InvalidPinToken(Seq<char>),
    HandleUnavailable,
}

impl View for CommandError {
    type V = Fault;

    open spec fn view(&self) -> Fault {
        match self {
            CommandError::MissingCommand => Fault::MissingCommand,
            CommandError::UnknownCommand(t) => Fault::UnknownCommand(t@),
            CommandError::MissingState => Fault::MissingState,
            CommandError::InvalidState(t) => Fault::InvalidState(t@),
            CommandError::MissingPin => Fault::MissingPin,
            CommandError::InvalidPinToken(t) => Fault::InvalidPinToken(t@),
            CommandError::HandleUnavailable => Fault::HandleUnavailable,
        }
    }
}

pub open spec fn result_view<T>(r: Result<T, CommandError>) -> Result<T, Fault> {
    match r {
        Ok(v) => Ok(v),
        Err(e) => Err(e@),
    }
}

/// The pin selector a token denotes, or the fault it raises.
pub open spec fn selector_of(t: Seq<char>) -> Result<PinSelector, Fault> {
    if t == "all"@ {
        Ok(PinSelector::All)
    } else {
        match u8_of(t) {
            Some(n) => Ok(PinSelector::Single(n)),
            None => Err(Fault::InvalidPinToken(t)),
        }
    }
}

/// The pin number a token names, if it is a number in `0..=LAST_PIN_NUMBER`.
pub open spec fn pin_of(t: Seq<char>) -> Option<u8> {
    match u8_of(t) {
        Some(n) => if n <= LAST_PIN_NUMBER { Some(n) } else { None },
        None => None,
    }
}

/// The state a `set` command asks for, given its state token if any.
pub open spec fn state_of(t: Option<Seq<char>>) -> Result<PinState, Fault> {
    match t {
        None => Err(Fault::MissingState),
        Some(w) => if w == "high"@ {
            Ok(PinState::High)
        } else if w == "low"@ {
            Ok(PinState::Low)
        } else {
            Err(Fault::InvalidState(w))
        },
    }
}

/// Resolves a pin token: `all`, or an unsigned 8-bit number. The number is
/// not checked against `LAST_PIN_NUMBER` here.
pub fn parse_pin_token(token: &str) -> (r: Result<PinSelector, CommandError>)
    ensures
        result_view(r) == selector_of(token@),
{
    if matches_word(token, "all") {
        Ok(PinSelector::All)
    } else {
        match to_u8(token) {
            Some(n) => Ok(PinSelector::Single(n)),
            None => Err(CommandError::InvalidPinToken(token.to_owned())),
        }
    }
}

/// Resolves a token that must name one pin in `0..=LAST_PIN_NUMBER`.
pub fn checked_pin(token: &str) -> (r: Result<u8, CommandError>)
    ensures
        match pin_of(token@) {
            Some(n) => r == Ok::<u8, CommandError>(n),
            None => result_view(r) == Err::<u8, Fault>(Fault::InvalidPinToken(token@)),
        },
{
    match to_u8(token) {
        Some(n) => if n <= LAST_PIN_NUMBER {
            Ok(n)
        } else {
            Err(CommandError::InvalidPinToken(token.to_owned()))
        },
        None => Err(CommandError::InvalidPinToken(token.to_owned())),
    }
}

/// Resolves the state token of a `set` command.
pub fn resolve_state(token: Option<&str>) -> (r: Result<PinState, CommandError>)
    ensures
        result_view(r) == state_of(
            match token {
                Some(t) => Some(t@),
                None => None,
            },
        ),
{
    match token {
        None => Err(CommandError::MissingState),
        Some(t) => if matches_word(t, "high") {
            Ok(PinState::High)
        } else if matches_word(t, "low") {
            Ok(PinState::Low)
        } else {
            Err(CommandError::InvalidState(t.to_owned()))
        },
    }
}

} // verus!
