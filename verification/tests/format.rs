use vitals_core::config::AppConfig;
use vitals_core::format::{
    byte_unit, format_duration_short_total, format_duration_total, hertz_unit, speed_unit, ValueFormatter,
};
use vitals_core::sensors::SensorFormat;

#[test]
fn test_uptime() {
    // 90061 s without seconds shown
    assert_eq!(format_duration_total(90061, false), "1d 1h 1m");
}

#[test]
fn test_format_duration_short() {
    assert_eq!(format_duration_short_total(30), "30s");
    assert_eq!(format_duration_short_total(120), "2m");
    assert_eq!(format_duration_short_total(3600), "1h");
    assert_eq!(format_duration_short_total(3660), "1h 1m");
}

#[test]
fn duration_edge_cases() {
    assert_eq!(format_duration_total(0, false), "0s");
    assert_eq!(format_duration_total(59, false), "59s");
    assert_eq!(format_duration_total(60, false), "1m");
    assert_eq!(format_duration_total(3601, true), "1h 1s");
    assert_eq!(format_duration_total(90061, true), "1d 1h 1m 1s");
    assert_eq!(format_duration_total(86400, true), "1d");
    assert_eq!(format_duration_short_total(0), "0s");
    assert_eq!(format_duration_short_total(59), "59s");
    assert_eq!(format_duration_short_total(7199), "1h 59m");
}

#[test]
fn unit_names() {
    assert_eq!(hertz_unit(3), "GHz");
    assert_eq!(hertz_unit(0), "Hz");
    assert_eq!(hertz_unit(99), "Hz");
    assert_eq!(byte_unit(3, true), "GB");
    assert_eq!(byte_unit(3, false), "GiB");
    assert_eq!(byte_unit(42, false), "B");
    assert_eq!(speed_unit(2, true), "Mbps");
    assert_eq!(speed_unit(2, false), "MB/s");
    assert_eq!(speed_unit(0, true), "bps");
}

#[test]
fn formatter_settings() {
    let mut cfg = AppConfig::default();
    {
        let f = ValueFormatter::new(&cfg);
        assert_eq!(f.decimals(SensorFormat::Percent), 0);
        assert_eq!(f.decimals(SensorFormat::Hertz), 1);
        assert_eq!(f.decimals(SensorFormat::Voltage), 1);
        assert_eq!(f.temperature_unit(), "\u{00b0}C");
        assert!(f.memory_uses_decimal());
        assert_eq!(f.format_string("abc"), "abc");
    }
    cfg.general.use_higher_precision = true;
    cfg.temperature.unit = 1;
    let f = ValueFormatter::new(&cfg);
    assert_eq!(f.decimals(SensorFormat::Percent), 1);
    assert_eq!(f.decimals(SensorFormat::Voltage), 2);
    assert_eq!(f.temperature_unit(), "\u{00b0}F");
}
