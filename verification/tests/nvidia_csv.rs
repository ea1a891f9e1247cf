use vitals_core::sensors::gpu::nvidia::{static_field_format, static_field_label};
use vitals_core::sensors::SensorFormat;
use vitals_core::sensors::gpu::nvidia::{
    gpu_key, gpu_number, gpu_static_key, line_reading_at, parse_csv_line, FieldScale, LineSource, NvidiaLine,
    NvidiaPoll, LINE_READINGS,
};

// 19-field CSV: name, fan, temp_gpu, temp_mem, mem_total, mem_used, mem_reserved, mem_free,
//   util_gpu, util_mem, util_enc, util_dec, clock_gpu, clock_mem, clock_video,
//   power_draw, power_avg, link_gen, link_width
const CSV_NORMAL: &str =
    "NVIDIA GeForce RTX 4090, 45, 62, 78, 24576, 4096, 256, 20224, 35, 12, 0, 5, 2100, 10501, 1950, 125.50, 98.30, 4, 16";

/// The numeric field `i` (1 to 16) of a line.
fn num(l: &NvidiaLine, i: usize) -> Option<f64> {
    l.numbers[i - 1].as_ref().map(|t| t.parse::<f64>().unwrap())
}

#[test]
fn parse_csv_line_normal_name() {
    let l = parse_csv_line(CSV_NORMAL, false).unwrap();
    assert_eq!(l.name, "NVIDIA GeForce RTX 4090");
}

#[test]
fn parse_csv_line_normal_fan() {
    let l = parse_csv_line(CSV_NORMAL, false).unwrap();
    assert!((num(&l, 1).unwrap() / 100.0 - 0.45).abs() < 1e-6);
}

#[test]
fn parse_csv_line_normal_temperature() {
    let l = parse_csv_line(CSV_NORMAL, false).unwrap();
    assert!((num(&l, 2).unwrap() * 1000.0 - 62000.0).abs() < 1e-3);
    assert!((num(&l, 3).unwrap() * 1000.0 - 78000.0).abs() < 1e-3);
}

#[test]
fn parse_csv_line_normal_memory() {
    let l = parse_csv_line(CSV_NORMAL, false).unwrap();
    let total = num(&l, 4).unwrap();
    let used = num(&l, 5).unwrap();
    assert!((used / total - 4096.0 / 24576.0).abs() < 1e-6);
    assert!((total * 1000.0 - 24576000.0).abs() < 1e-3);
}

#[test]
fn parse_csv_line_normal_utilization() {
    let l = parse_csv_line(CSV_NORMAL, false).unwrap();
    assert!((num(&l, 8).unwrap() / 100.0 - 0.35).abs() < 1e-6);
    assert!((num(&l, 9).unwrap() / 100.0 - 0.12).abs() < 1e-6);
    assert!((num(&l, 11).unwrap() / 100.0 - 0.05).abs() < 1e-6);
}

#[test]
fn parse_csv_line_normal_clocks() {
    let l = parse_csv_line(CSV_NORMAL, false).unwrap();
    assert!((num(&l, 12).unwrap() * 1_000_000.0 - 2_100_000_000.0).abs() < 1e-3);
    assert!((num(&l, 13).unwrap() * 1_000_000.0 - 10_501_000_000.0).abs() < 1e-3);
}

#[test]
fn parse_csv_line_normal_power() {
    let l = parse_csv_line(CSV_NORMAL, false).unwrap();
    assert!((num(&l, 15).unwrap() - 125.50).abs() < 1e-6);
    assert!((num(&l, 16).unwrap() - 98.30).abs() < 1e-6);
}

#[test]
fn parse_csv_line_normal_pcie() {
    let l = parse_csv_line(CSV_NORMAL, false).unwrap();
    assert_eq!(l.pcie.as_deref(), Some("PCIe 4x16"));
}

#[test]
fn parse_csv_line_short_is_bad_split() {
    assert!(parse_csv_line("NVIDIA GeForce RTX 4090, 45, 62", false).is_none());
}

#[test]
fn parse_csv_line_empty_is_bad_split() {
    assert!(parse_csv_line("", false).is_none());
}

#[test]
fn parse_csv_line_na_values_handled() {
    let csv_na = "NVIDIA GeForce RTX 4090, N/A, 62, [N/A], 24576, 4096, 256, 20224, 35, 12, 0, 5, 2100, 10501, 1950, 125.50, 98.30, 4, 16";
    let l = parse_csv_line(csv_na, false).unwrap();
    // Fan absent due to N/A, memory temperature due to [N/A]
    assert!(num(&l, 1).is_none());
    assert!(num(&l, 3).is_none());
    // GPU temperature still present
    assert!(num(&l, 2).is_some());
}

/// The value a numeric table row takes from a line, scaled as the row says.
fn row_value(l: &NvidiaLine, row: usize) -> Option<f64> {
    match line_reading_at(row).source {
        LineSource::Field { field, scale } => num(l, field).map(|v| match scale {
            FieldScale::Hundredths => v * 0.01,
            FieldScale::Thousands => v * 1000.0,
            FieldScale::Millions => v * 1_000_000.0,
            FieldScale::Unchanged => v,
        }),
        _ => None,
    }
}

#[test]
fn parse_csv_line_multi_gpu_numbering() {
    assert_eq!(gpu_key(gpu_number(0), "name"), "_gpu#1_name_");
    assert_eq!(gpu_key(gpu_number(1), "temp"), "_gpu#2_temp_");
    assert_ne!(gpu_key(gpu_number(0), "name"), "_gpu#2_name_");
    assert_eq!(gpu_static_key(2, 5), "_gpu#2_static_5_");
    // The second GPU's line: every reading's key carries its number, and no
    // two readings share a key.
    let l = parse_csv_line(CSV_NORMAL, false).unwrap();
    assert_eq!(l.name, "NVIDIA GeForce RTX 4090");
    let mut keys: Vec<String> = (0..LINE_READINGS).map(|row| gpu_key(gpu_number(1), line_reading_at(row).name)).collect();
    keys.extend((0..13).map(|i| gpu_static_key(gpu_number(1), i)));
    assert!(keys.contains(&"_gpu#2_name_".to_string()));
    assert!(!keys.contains(&"_gpu#1_name_".to_string()));
    for k in &keys {
        assert!(k.starts_with("_gpu#2_"));
    }
    for i in 0..keys.len() {
        for j in i + 1..keys.len() {
            assert_ne!(keys[i], keys[j]);
        }
    }
}

#[test]
fn parse_csv_line_group_reading_uses_utilization() {
    let l = parse_csv_line(CSV_NORMAL, false).unwrap();
    let group = line_reading_at(0);
    assert_eq!(group.label, "Graphics");
    assert_eq!(group.name, "group");
    assert_eq!(group.format, SensorFormat::Percent);
    assert_eq!(group.source, LineSource::Field { field: 8, scale: FieldScale::Hundredths });
    assert_eq!(gpu_key(gpu_number(0), group.name), "_gpu#1_group_");
    // util_gpu = 35, so group = 0.35
    assert!((row_value(&l, 0).unwrap() - 0.35).abs() < 1e-6);
}

#[test]
fn parse_csv_line_encoder_zero_utilization() {
    let l = parse_csv_line(CSV_NORMAL, false).unwrap();
    let encoder = line_reading_at(12);
    assert_eq!(encoder.label, "Encoder Utilization");
    assert_eq!(encoder.name, "util_encoder");
    assert_eq!(encoder.source, LineSource::Field { field: 10, scale: FieldScale::Hundredths });
    assert!((row_value(&l, 12).unwrap() - 0.0).abs() < 1e-6);
}

#[test]
fn parse_csv_line_exactly_19_fields() {
    let csv = "Name, 50, 70, 80, 8192, 2048, 128, 6016, 25, 10, 5, 3, 1500, 7000, 1200, 100.0, 80.0, 3, 8";
    let l = parse_csv_line(csv, false).unwrap();
    assert_eq!(l.name, "Name");
    assert!(l.statics.is_empty());
}

#[test]
fn parse_csv_line_18_fields_is_bad() {
    let csv = "Name, 50, 70, 80, 8192, 2048, 128, 6016, 25, 10, 5, 3, 1500, 7000, 1200, 100.0, 80.0, 3";
    assert!(parse_csv_line(csv, false).is_none());
}

#[test]
fn parse_csv_line_static_fields() {
    let csv = format!("{CSV_NORMAL}, 87, 450.00, 4, 16, N/A, 550.54, 95.02.18.80.5F, 1234, 0x0000, 0x01, 0x00, 0x268410DE, ");
    let l = parse_csv_line(&csv, false).unwrap();
    let positions: Vec<usize> = l.statics.iter().map(|(i, _)| *i).collect();
    assert_eq!(positions, vec![0, 1, 2, 3, 5, 6, 7, 8, 9, 10, 11]);
    assert_eq!(l.statics[4].1, "550.54");
    // Once reported, static fields are not given again.
    assert!(parse_csv_line(&csv, true).unwrap().statics.is_empty());
}

#[test]
fn nvidia_poll_stops_after_three_bad_lines() {
    let mut p = NvidiaPoll::new(true);
    assert!(!p.record_line(true));
    assert!(!p.record_line(true));
    assert!(!p.record_line(false));
    assert!(!p.record_line(true));
    assert!(!p.record_line(true));
    assert!(p.record_line(true));
    p.finish_batch();
    assert!(p.static_returned);
}

#[test]
fn static_field_names_and_formats() {
    assert_eq!(static_field_label(0), "Temperature Limit");
    assert_eq!(static_field_label(5), "Driver Version");
    assert_eq!(static_field_label(12), "Sub Device ID");
    assert_eq!(static_field_format(0), SensorFormat::Temp);
    assert_eq!(static_field_format(1), SensorFormat::WattGpu);
    assert_eq!(static_field_format(7), SensorFormat::StringVal);
}
