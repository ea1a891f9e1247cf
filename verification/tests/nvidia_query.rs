use vitals_core::sensors::gpu::nvidia::{
    build_query_string, line_reading_at, FieldScale, LineSource, LINE_READINGS,
};
use vitals_core::sensors::SensorFormat;

#[test]
fn build_query_string_without_static() {
    let query = build_query_string(false);
    assert!(!query.contains("driver_version"));
    assert!(!query.contains("temperature.gpu.tlimit"));
    assert!(query.contains("name"));
    assert!(query.contains("fan.speed"));
}

#[test]
fn build_query_string_with_static() {
    let query = build_query_string(true);
    assert!(query.contains("driver_version"));
    assert!(query.contains("temperature.gpu.tlimit"));
    assert!(query.contains("pci.device_id"));
}

#[test]
fn build_query_string_field_counts() {
    assert_eq!(build_query_string(false).split(',').count(), 19);
    assert_eq!(build_query_string(true).split(',').count(), 32);
    assert!(build_query_string(true).starts_with(&format!("{},", build_query_string(false))));
}

#[test]
fn line_reading_table_rows() {
    let first = line_reading_at(0);
    assert_eq!(first.label, "Graphics");
    assert_eq!(first.name, "group");
    assert_eq!(first.format, SensorFormat::Percent);
    assert_eq!(first.source, LineSource::Field { field: 8, scale: FieldScale::Hundredths });

    let temp = line_reading_at(3);
    assert_eq!(temp.label, "Temperature");
    assert_eq!(temp.name, "temp");
    assert_eq!(temp.format, SensorFormat::Temp);
    assert_eq!(temp.source, LineSource::Field { field: 2, scale: FieldScale::Thousands });

    let usage = line_reading_at(5);
    assert_eq!(usage.name, "mem_usage");
    assert_eq!(usage.source, LineSource::MemoryUsage);

    let freq = line_reading_at(14);
    assert_eq!(freq.name, "clock_gpu");
    assert_eq!(freq.format, SensorFormat::Hertz);
    assert_eq!(freq.source, LineSource::Field { field: 12, scale: FieldScale::Millions });

    let last = line_reading_at(LINE_READINGS - 1);
    assert_eq!(last.label, "Link Speed");
    assert_eq!(last.name, "pcie");
    assert_eq!(last.format, SensorFormat::Pcie);
    assert_eq!(last.source, LineSource::Pcie);
}
