//! Start-up configuration.

use vstd::prelude::*;

verus! {

/// The clock input of the chip: the frequency that the clock tree, and with
/// it every PIO clock divider, is derived from.
#[derive(Clone, Copy, Debug, PartialEq, Eq, Structural)]
pub struct ClockConfig {
    /// Frequency of the crystal oscillator in hertz.
    pub crystal_hz: u32,
}

impl ClockConfig {
    /// A clock tree driven by a crystal of `crystal_hz` hertz.
    pub fn crystal(crystal_hz: u32) -> (clocks: Self)
        ensures
            clocks.crystal_hz == crystal_hz,
    {
        ClockConfig { crystal_hz }
    }
}

/// What the driver layer is started with.
#[non_exhaustive]
pub struct Config {
    /// The clock configuration.
    pub clocks: ClockConfig,
}

impl Config {
    /// A configuration with the given clocks.
    pub fn new(clocks: ClockConfig) -> (config: Self)
        ensures
            config.clocks == clocks,
    {
        Self { clocks }
    }
}

impl Default for Config {
    /// The configuration for a 12 MHz crystal.
    fn default() -> (config: Self)
        ensures
            config.clocks.crystal_hz == 12_000_000,
    {
        Self { clocks: ClockConfig::crystal(12_000_000) }
    }
}

} // verus!
