use vstd::prelude::*;

use crate::reading::{Reading, SensorKind};

verus! {

/// Runtime configuration, loaded once at startup and fixed for the process
/// lifetime. A pin number of zero disables the sensor on that pin.
#[derive(Clone, Copy, PartialEq, Eq, Structural, Debug)]
pub struct Config {
    pub dummy_sensor: bool,
    pub dht11_pin: u8,
    pub dht22_pin: u8,
    pub sensor_query_interval_secs: u64,
    pub listen_on_loopback_only: bool,
    pub listen_on_port: u16,
    pub max_readings_kept: usize,
}

/// The configuration a fresh installation starts from.
pub open spec fn default_config() -> Config {
    Config {
        dummy_sensor: false,
        dht11_pin: 0,
        dht22_pin: 26,
        sensor_query_interval_secs: 60,
        listen_on_loopback_only: false,
        listen_on_port: 8080,
        max_readings_kept: usize::MAX,
    }
}

impl Default for Config {
    fn default() -> (c: Config)
        ensures
            c == default_config(),
    {
        Config {
            dummy_sensor: false,
            dht11_pin: 0,
            dht22_pin: 26,
            sensor_query_interval_secs: 60,
            listen_on_loopback_only: false,
            listen_on_port: 8080,
            max_readings_kept: usize::MAX,
        }
    }
}

/// The providers the configuration enables, in the order the sampling loop
/// drives them each cycle.
pub open spec fn provider_set(c: Config) -> Seq<SensorKind> {
    (if c.dht22_pin != 0 {
        seq![SensorKind::Dht22]
    } else {
        Seq::empty()
    }) + (if c.dummy_sensor {
        seq![SensorKind::Dummy]
    } else {
        Seq::empty()
    }) + (if c.dht11_pin != 0 {
        seq![SensorKind::Dht11]
    } else {
        Seq::empty()
    })
}

/// Assembles the enabled providers from the configuration, once at startup.
pub fn build_providers(config: &Config) -> (ps: Vec<SensorKind>)
    ensures
        ps@ == provider_set(*config),
{
    let mut ps: Vec<SensorKind> = Vec::new();
    if config.dht22_pin != 0 {
        ps.push(SensorKind::Dht22);
    }
    if config.dummy_sensor {
        ps.push(SensorKind::Dummy);
    }
    if config.dht11_pin != 0 {
        ps.push(SensorKind::Dht11);
    }
    proof {
        assert(ps@ =~= provider_set(*config));
    }
    ps
}

/// Relies on rand::random_range: a sample from the thread-local generator,
/// uniform over the inclusive range, which must not be empty.
#[verifier::external_body]
fn random_in_range(lo: i32, hi: i32) -> (r: i32)
    requires
        lo <= hi,
    ensures
        lo <= r <= hi,
{
    rand::random_range(lo..=hi)
}

/// The synthetic provider: always succeeds, drawing the temperature from a
/// fixed plausible range of [-50.0, 50.0] degrees and the humidity from
/// [0.0, 100.0] percent, both in tenths.
pub fn read_data_dummy(timestamp: u64) -> (r: Reading)
    ensures
        r.sensor == SensorKind::Dummy,
        r.timestamp == timestamp,
        -500 <= r.temperature_deci <= 500,
        0 <= r.humidity_deci <= 1000,
{
    let temperature_deci = random_in_range(-500, 500);
    let humidity_deci = random_in_range(0, 1000);
    Reading::new(SensorKind::Dummy, timestamp, temperature_deci, humidity_deci)
}

/// The reading a successful DHT11 exchange yields; the hardware protocol
/// itself reports in tenths already.
pub fn read_data_dht11(timestamp: u64, temperature_deci: i32, humidity_deci: i32) -> (r: Reading)
    ensures
        r == (Reading { sensor: SensorKind::Dht11, timestamp, temperature_deci, humidity_deci }),
{
    Reading::new(SensorKind::Dht11, timestamp, temperature_deci, humidity_deci)
}

/// The reading a successful DHT22 exchange yields, after its degrees and
/// percent have been scaled to tenths.
pub fn read_data_dht22(timestamp: u64, temperature_deci: i32, humidity_deci: i32) -> (r: Reading)
    ensures
        r == (Reading { sensor: SensorKind::Dht22, timestamp, temperature_deci, humidity_deci }),
{
    Reading::new(SensorKind::Dht22, timestamp, temperature_deci, humidity_deci)
}

} // verus!
