use rustberry::provider::{
    build_providers, read_data_dht11, read_data_dht22, read_data_dummy, Config,
};
use rustberry::reading::SensorKind;

#[test]
fn default_config_matches_a_fresh_installation() {
    let c = Config::default();
    assert!(!c.dummy_sensor);
    assert_eq!(c.dht11_pin, 0);
    assert_eq!(c.dht22_pin, 26);
    assert_eq!(c.sensor_query_interval_secs, 60);
    assert!(!c.listen_on_loopback_only);
    assert_eq!(c.listen_on_port, 8080);
    assert_eq!(c.max_readings_kept, usize::MAX);
}

#[test]
fn providers_follow_the_configuration_in_a_fixed_order() {
    let mut c = Config::default();
    c.dht22_pin = 26;
    c.dummy_sensor = true;
    c.dht11_pin = 4;
    assert_eq!(
        build_providers(&c),
        vec![SensorKind::Dht22, SensorKind::Dummy, SensorKind::Dht11]
    );
}

#[test]
fn a_zero_pin_disables_the_sensor() {
    let mut c = Config::default();
    c.dht22_pin = 0;
    c.dht11_pin = 0;
    c.dummy_sensor = true;
    assert_eq!(build_providers(&c), vec![SensorKind::Dummy]);
}

#[test]
fn no_provider_when_nothing_is_enabled() {
    let mut c = Config::default();
    c.dht22_pin = 0;
    assert!(build_providers(&c).is_empty());
}

#[test]
fn dummy_readings_stay_in_their_plausible_ranges() {
    for _ in 0..100 {
        let r = read_data_dummy(42);
        assert_eq!(r.sensor, SensorKind::Dummy);
        assert_eq!(r.timestamp, 42);
        assert!((-500..=500).contains(&r.temperature_deci));
        assert!((0..=1000).contains(&r.humidity_deci));
    }
}

#[test]
fn hardware_readings_carry_their_sensor_and_fields() {
    let a = read_data_dht11(10, 230, 451);
    assert_eq!(a.sensor, SensorKind::Dht11);
    assert_eq!(a.timestamp, 10);
    assert_eq!(a.temperature_deci, 230);
    assert_eq!(a.humidity_deci, 451);
    let b = read_data_dht22(11, -17, 998);
    assert_eq!(b.sensor, SensorKind::Dht22);
    assert_eq!(b.temperature_deci, -17);
    assert_eq!(b.humidity_deci, 998);
}
