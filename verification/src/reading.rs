use vstd::prelude::*;

verus! {

/// Identifies which provider produced a reading.
#[derive(Clone, Copy, PartialEq, Eq, Structural, Debug)]
pub enum SensorKind {
    Dht11,
    Dht22,
    Dummy,
}

/// The ways a sensor provider can fail: the pin could not be driven, the
/// protocol exchange produced a bad checksum, or the sensor never answered.
#[derive(Clone, Copy, PartialEq, Eq, Structural, Debug)]
pub enum SensorError {
    GpioAccess,
    Checksum,
    Timeout,
}

/// One timestamped sensor sample. Temperature and humidity are held in
/// tenths (of a degree Celsius and of a percent), so 215 stands for 21.5.
#[derive(Clone, Copy, PartialEq, Eq, Structural, Debug)]
pub struct Reading {
    pub sensor: SensorKind,
    pub timestamp: u64,
    pub temperature_deci: i32,
    pub humidity_deci: i32,
}

impl Reading {
    pub fn new(
        sensor: SensorKind,
        timestamp: u64,
        temperature_deci: i32,
        humidity_deci: i32,
    ) -> (r: Reading)
        ensures
            r == (Reading { sensor, timestamp, temperature_deci, humidity_deci }),
    {
        Reading { sensor, timestamp, temperature_deci, humidity_deci }
    }
}

} // verus!
