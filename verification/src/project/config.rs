//! Fallback values of a project's configuration, used where the configuration file lacks them.

use vstd::prelude::*;

verus! {

/// The default width of the window.
pub fn window_width() -> (r: u32)
    ensures
        r == 1280,
{
    1280
}

/// The default height of the window.
pub fn window_height() -> (r: u32)
    ensures
        r == 720,
{
    720
}

/// The default port on which OSC input is received.
pub fn osc_input_port() -> (r: u16)
    ensures
        r == 9001,
{
    9001
}

/// The default number of OSC input messages kept in the log.
pub fn osc_input_log_limit() -> (r: usize)
    ensures
        r == 50,
{
    50
}

/// The default number of OSC output messages kept in the log.
pub fn osc_output_log_limit() -> (r: usize)
    ensures
        r == 10,
{
    10
}

/// The default number of control messages kept in the log.
pub fn control_log_limit() -> (r: usize)
    ensures
        r == 50,
{
    50
}

/// The default seed for the soundscape's random number generation.
pub fn seed() -> (r: [u8; 16])
    ensures
        forall|i: int| 0 <= i < 16 ==> r@[i] == 0,
{
    [0u8; 16]
}

} // verus!
