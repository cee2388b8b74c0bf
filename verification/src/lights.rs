//! The colors of a natural frontlight and the light sensor of a device.
use vstd::prelude::*;

verus! {

/// The colors of the LEDs of a natural frontlight.
#[derive(Debug, Copy, Clone, PartialEq, Eq, Structural, Hash)]
pub enum LightColor {
    White,
    Green,
    Red,
}

/// The directory, under `/sys/class/backlight`, of the LED of each color.
pub open spec fn frontlight_dir_of(c: LightColor) -> Seq<char> {
    match c {
        LightColor::White => "lm3630a_led1b"@,
        LightColor::Red => "lm3630a_led1a"@,
        LightColor::Green => "lm3630a_ledb"@,
    }
}

impl LightColor {
    /// The directory, under `/sys/class/backlight`, of the LED of this color.
    pub fn dir(self) -> (s: &'static str)
        ensures
            s@ == frontlight_dir_of(self),
    {
        match self {
            LightColor::White => "lm3630a_led1b",
            LightColor::Red => "lm3630a_led1a",
            LightColor::Green => "lm3630a_ledb",
        }
    }
}

/// A frontlight that does nothing, for devices without one.
#[derive(Debug, Copy, Clone)]
pub struct FakeFrontlight {}

impl FakeFrontlight {
    pub fn new() -> (f: FakeFrontlight) {
        FakeFrontlight {}
    }
}

/// Why a light sensor could not be read.
#[derive(Debug, Clone)]
pub struct SensorError {
    pub message: String,
}

/// A sensor of the ambient light.
pub trait LightSensor {
    fn level(&mut self) -> Result<u16, SensorError>;
}

/// A fixed level stands for a sensor that always reads it.
impl LightSensor for u16 {
    fn level(&mut self) -> (r: Result<u16, SensorError>)
        ensures
            r matches Ok(v) && v == *old(self),
            *final(self) == *old(self),
    {
        Ok(*self)
    }
}

} // verus!
