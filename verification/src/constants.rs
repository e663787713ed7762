//! Constants of the device protocol and of the displayed values.

use vstd::prelude::*;

verus! {

/// Pause, in milliseconds, between a setting command and its read-back, so that
/// the device is not overwhelmed.
pub const SAFE_CMD_DELAY_MS: u64 = 100;

/// Number of decimal places of a voltage.
pub const VOLTAGE_DECIMAL_NB: usize = 2;

/// Number of decimal places of a current.
pub const CURRENT_DECIMAL_NB: usize = 3;

/// Highest output voltage of the KD3005P, in volts; the lowest is 0.
pub const MAX_VOLTAGE_V: u64 = 30;

/// Highest current limit of the KD3005P, in amperes; the lowest is 0.
pub const MAX_CURRENT_A: u64 = 5;

} // verus!
