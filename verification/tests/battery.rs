use vitals_core::sensors::battery::{charge_direction, ChargeDirection};
use vitals_core::sensors::battery::{
    number_token, parse_uevent_props, record_time_left, uevent_path, BatteryProvider,
};

/// Standard battery uevent with all fields present (energy-based).
const UEVENT_STANDARD: &str = "\
POWER_SUPPLY_STATUS=Discharging
POWER_SUPPLY_VOLTAGE_NOW=12000000
POWER_SUPPLY_POWER_NOW=15000000
POWER_SUPPLY_ENERGY_FULL=50000000
POWER_SUPPLY_ENERGY_FULL_DESIGN=55000000
POWER_SUPPLY_ENERGY_NOW=30000000
POWER_SUPPLY_CAPACITY=60
POWER_SUPPLY_CAPACITY_LEVEL=Normal
POWER_SUPPLY_CYCLE_COUNT=150
";

fn number(props_value: Option<String>) -> f64 {
    number_token(&props_value.unwrap()).unwrap().parse::<f64>().unwrap()
}

#[test]
fn parse_uevent_standard_state() {
    let props = parse_uevent_props(UEVENT_STANDARD);
    assert_eq!(props.get("STATUS").unwrap(), "Discharging");
}

#[test]
fn parse_uevent_standard_cycles() {
    let props = parse_uevent_props(UEVENT_STANDARD);
    assert_eq!(props.get("CYCLE_COUNT").unwrap(), "150");
}

#[test]
fn parse_uevent_standard_voltage() {
    let props = parse_uevent_props(UEVENT_STANDARD);
    assert!((number(props.get("VOLTAGE_NOW")) / 1000.0 - 12000.0).abs() < 1e-3);
}

#[test]
fn parse_uevent_standard_percentage() {
    let props = parse_uevent_props(UEVENT_STANDARD);
    assert!((number(props.get("CAPACITY")) / 100.0 - 0.60).abs() < 1e-6);
}

#[test]
fn parse_uevent_energy_full_and_design() {
    let props = parse_uevent_props(UEVENT_STANDARD);
    assert!((number(props.get("ENERGY_FULL")) - 50_000_000.0).abs() < 1e-3);
    assert!((number(props.get("ENERGY_FULL_DESIGN")) - 55_000_000.0).abs() < 1e-3);
}

#[test]
fn parse_uevent_level_field() {
    let props = parse_uevent_props(UEVENT_STANDARD);
    assert_eq!(props.get("CAPACITY_LEVEL").unwrap(), "Normal");
}

#[test]
fn parse_uevent_empty() {
    let props = parse_uevent_props("");
    assert!(props.get("STATUS").is_none());
}

#[test]
fn uevent_last_value_wins_and_prefix_is_removed() {
    let props = parse_uevent_props("POWER_SUPPLY_STATUS=Charging\nSTATUS=Full\nNOEQUALS\nA=b=c\n");
    assert_eq!(props.get("STATUS").unwrap(), "Full");
    assert_eq!(props.get("A").unwrap(), "b=c");
    assert!(props.get("NOEQUALS").is_none());
}

#[test]
fn parse_uevent_time_left_smoothing() {
    let mut history: Vec<f64> = Vec::new();
    let mut status = String::new();
    // Energy now 30 Wh over a draw of 15 W: two hours, twice.
    record_time_left(&mut history, &mut status, "Discharging", 7200.0);
    record_time_left(&mut history, &mut status, "Discharging", 7200.0);
    assert_eq!(history, vec![7200.0, 7200.0]);
    assert_eq!(status, "Discharging");
    let mean = history.iter().sum::<f64>() / history.len() as f64;
    assert!((mean - 7200.0).abs() < 1e-3, "Smoothed value should be stable with identical inputs");
    assert_eq!(history.len(), 2);
}

#[test]
fn parse_uevent_status_change_clears_history() {
    let mut history: Vec<f64> = Vec::new();
    let mut status = String::new();
    record_time_left(&mut history, &mut status, "Discharging", 7200.0);
    assert_eq!(history.len(), 1);
    assert_eq!(status, "Discharging");
    record_time_left(&mut history, &mut status, "Charging", 3600.0);
    // History restarted with one entry
    assert_eq!(history.len(), 1);
    assert_eq!(history[0], 3600.0);
    assert_eq!(status, "Charging");
}

#[test]
fn provider_status_change_clears_history() {
    let mut p: BatteryProvider<f64> = BatteryProvider::new(0);
    p.record_time_left("Charging", 100.0);
    p.record_time_left("Charging", 110.0);
    assert_eq!(p.time_left_history(), &vec![100.0, 110.0]);
    p.record_time_left("Discharging", 7200.0);
    assert_eq!(p.time_left_history(), &vec![7200.0]);
}

#[test]
fn time_left_history_keeps_ten() {
    let mut p: BatteryProvider<u32> = BatteryProvider::new(3);
    for i in 0..15 {
        p.record_time_left("Discharging", i);
    }
    assert_eq!(p.time_left_history(), &(5..15).collect::<Vec<u32>>());
}

#[test]
fn battery_slots() {
    let p: BatteryProvider<f64> = BatteryProvider::new(12);
    assert_eq!(p.slot(), 7);
    assert_eq!(uevent_path(0), "/sys/class/power_supply/BAT0/uevent");
    assert_eq!(uevent_path(3), "/sys/class/power_supply/BATT/uevent");
    assert_eq!(uevent_path(7), "/sys/class/power_supply/macsmc-battery/uevent");
}

#[test]
fn parse_number_valid() {
    assert_eq!(number_token("12345").unwrap().parse::<f64>().ok(), Some(12345.0));
    assert_eq!(number_token("  67890  ").unwrap().parse::<f64>().ok(), Some(67890.0));
}

#[test]
fn parse_number_invalid() {
    assert_eq!(number_token("abc"), None);
    assert_eq!(number_token(""), None);
}

#[test]
fn charge_directions() {
    assert_eq!(charge_direction("Charging"), Some(ChargeDirection::Charging));
    assert_eq!(charge_direction("Discharging"), Some(ChargeDirection::Discharging));
    assert_eq!(charge_direction("Full"), None);
    assert_eq!(charge_direction("charging"), None);
}
