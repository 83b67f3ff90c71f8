//! The two numbers a run is set up with, the side of the arena and the
//! number of generations, and how each is resolved from what the command
//! line held for it.

use vstd::prelude::*;

verus! {

/// The side of the arena where none is asked for.
pub const DEFAULT_ARENA_SIZE: u32 = 40;

/// The number of generations where none is asked for.
pub const DEFAULT_TICKS: u32 = 1000;

/// What the command line held for an option that takes a number.
#[derive(Clone, Copy, Debug, PartialEq, Eq, Structural)]
pub enum Argument {
    /// The option was not given.
    Absent,
    /// The option was given with this number.
    Number(u32),
    /// The option was given with a text that is no number.
    Malformed,
}

/// How a setting came by its value.
#[derive(Clone, Copy, Debug, PartialEq, Eq, Structural)]
pub enum Origin {
    /// Nothing was asked for: the value is the default.
    Default,
    /// The value is the one that was asked for.
    Given,
    /// What was asked for cannot be used: the value is the default.
    Fallback,
}

/// A resolved setting: its value, and how it came by it.
#[derive(Clone, Copy, Debug, PartialEq, Eq, Structural)]
pub struct Setting {
    pub value: u32,
    pub origin: Origin,
}

/// The number that `str::parse::<u32>` reads from a text, or `None` where it
/// reads none.
pub uninterp spec fn parsed_u32(text: Seq<char>) -> Option<u32>;

/// The argument that the text of an option stands for.
pub open spec fn argument_of(text: Option<Seq<char>>) -> Argument {
    match text {
        None => Argument::Absent,
        Some(t) => argument_read(parsed_u32(t)),
    }
}

/// The argument that a text stands for, given the number read from it.
pub open spec fn argument_read(number: Option<u32>) -> Argument {
    match number {
        Some(n) => Argument::Number(n),
        None => Argument::Malformed,
    }
}

/// The number of generations that an argument asks for: any number given,
/// and the default otherwise.
pub open spec fn ticks_setting(argument: Argument) -> Setting {
    match argument {
        Argument::Absent => Setting { value: DEFAULT_TICKS, origin: Origin::Default },
        Argument::Number(n) => Setting { value: n, origin: Origin::Given },
        Argument::Malformed => Setting { value: DEFAULT_TICKS, origin: Origin::Fallback },
    }
}

/// The side of the arena that an argument asks for: any positive number
/// given, and the default otherwise. An arena has at least one cell, so zero
/// cannot be used.
pub open spec fn arena_setting(argument: Argument) -> Setting {
    match argument {
        Argument::Absent => Setting { value: DEFAULT_ARENA_SIZE, origin: Origin::Default },
        Argument::Number(n) => if n > 0 {
            Setting { value: n, origin: Origin::Given }
        } else {
            Setting { value: DEFAULT_ARENA_SIZE, origin: Origin::Fallback }
        },
        Argument::Malformed => Setting { value: DEFAULT_ARENA_SIZE, origin: Origin::Fallback },
    }
}

/// Calls `str::parse::<u32>` on the text. The result is taken to depend on
/// the characters of the text alone; nothing more is claimed of it.
#[verifier::external_body]
fn parse_u32(text: &str) -> (number: Option<u32>)
    ensures
        number == parsed_u32(text@),
{
    text.parse::<u32>().ok()
}

/// Reads the text that the command line held for an option, if it held any.
pub fn read_argument(text: Option<&str>) -> (argument: Argument)
    ensures
        argument == argument_of(
            match text {
                Some(t) => Some(t@),
                None => None,
            },
        ),
{
    match text {
        None => Argument::Absent,
        Some(t) => classify(parse_u32(t)),
    }
}

/// Tells a text that was read as a number from one that was not.
pub fn classify(number: Option<u32>) -> (argument: Argument)
    ensures
        argument == argument_read(number),
{
    match number {
        Some(n) => Argument::Number(n),
        None => Argument::Malformed,
    }
}

/// Resolves the number of generations to run.
pub fn resolve_ticks(argument: Argument) -> (setting: Setting)
    ensures
        setting == ticks_setting(argument),
{
    match argument {
        Argument::Absent => Setting { value: DEFAULT_TICKS, origin: Origin::Default },
        Argument::Number(n) => Setting { value: n, origin: Origin::Given },
        Argument::Malformed => Setting { value: DEFAULT_TICKS, origin: Origin::Fallback },
    }
}

/// Resolves the side of the arena. It is never zero.
pub fn resolve_arena_size(argument: Argument) -> (setting: Setting)
    ensures
        setting == arena_setting(argument),
        setting.value > 0,
{
    match argument {
        Argument::Absent => Setting { value: DEFAULT_ARENA_SIZE, origin: Origin::Default },
        Argument::Number(n) => {
            if n > 0 {
                Setting { value: n, origin: Origin::Given }
            } else {
                Setting { value: DEFAULT_ARENA_SIZE, origin: Origin::Fallback }
            }
        },
        Argument::Malformed => Setting { value: DEFAULT_ARENA_SIZE, origin: Origin::Fallback },
    }
}

} // verus!
