use vitals_core::hwmon::{
    clean_label, directory_sensors, group_sensor_files, listing_sensors, GroupReading, LabelCounter, LabelFile,
};
use vitals_core::sensors::{SensorCategory, SensorFormat};

#[test]
fn clean_label_acpitz() {
    assert_eq!(clean_label("acpitz temp1"), "ACPI Thermal Zone");
}

#[test]
fn clean_label_pch_cannonlake() {
    assert_eq!(clean_label("pch_cannonlake temp1"), "Platform Controller Hub");
}

#[test]
fn clean_label_iwlwifi() {
    assert_eq!(clean_label("iwlwifi_1 temp1"), "Wireless Adapter");
}

#[test]
fn clean_label_package_id_0() {
    assert_eq!(clean_label("Package id 0"), "Processor 0");
}

#[test]
fn clean_label_package_id_1() {
    assert_eq!(clean_label("Package id 1"), "Processor 1");
}

#[test]
fn clean_label_package_id_generic() {
    // Package id 2 is not a special case, but the general replacement still applies
    assert_eq!(clean_label("Package id 2"), "CPU 2");
}

#[test]
fn clean_label_passthrough() {
    // Unknown labels should pass through unchanged
    assert_eq!(clean_label("some random sensor"), "some random sensor");
}

#[test]
fn clean_label_empty() {
    assert_eq!(clean_label(""), "");
}

#[test]
fn clean_label_replaces_every_package_id() {
    assert_eq!(clean_label("Package id 3 / Package id 4"), "CPU 3 / CPU 4");
}

#[test]
fn clean_label_is_idempotent_and_removes_package_id() {
    for l in ["acpitz temp1", "Package id 0", "Package Package id id", "Package idPackage id 7", "x"] {
        let once = clean_label(l);
        assert!(!once.contains("Package id"));
        assert_eq!(clean_label(&once), once);
    }
    assert_eq!(clean_label("Package Package id id"), "Package CPU id");
}

#[test]
fn directory_sensors_from_groups_and_readings() {
    let names: Vec<String> = ["temp1_input", "temp1_label", "temp2_input", "in0_input", "fan1_input", "fan1_label", "name"]
        .iter()
        .map(|s| s.to_string())
        .collect();
    let groups = group_sensor_files("hwmon3", &names, true, true, true);
    let mut reads = Vec::new();
    for g in groups {
        let (input, label) = match g.file_key.as_str() {
            "hwmon3temp1" => (Some(false), LabelFile::Text("Core 0".to_string())),
            "hwmon3temp2" => (Some(true), LabelFile::Missing),
            "hwmon3in0" => (None, LabelFile::Missing),
            _ => (Some(true), LabelFile::Text("CPU Fan".to_string())),
        };
        reads.push((g, GroupReading { input, label }));
    }
    let mut counter = LabelCounter::new();
    let s = directory_sensors(reads, "coretemp", "Package id 0", "/sys/class/hwmon/hwmon3", true, &mut counter);
    // temp2 reads zero and is hidden; in0 could not be read; the fan reading zero stays.
    assert_eq!(s.len(), 2);
    assert_eq!(s[0].label, "coretemp Core 0");
    assert_eq!(s[0].key, "_temperature_hwmon3temp1_temp_");
    assert_eq!(s[0].input_path, "/sys/class/hwmon/hwmon3/temp1_input");
    assert_eq!((s[0].category, s[0].format), (SensorCategory::Temperature, SensorFormat::Temp));
    assert_eq!(s[1].key, "_fan_hwmon3fan1_fan_");
    assert_eq!(s[1].label, "coretemp CPU Fan");
}

#[test]
fn listing_sensors_from_files() {
    let names: Vec<String> =
        ["temp1_input", "temp1_label", "temp2_input", "temp3_input", "temp3_label", "in0_input", "fan1_input", "name"]
            .iter()
            .map(|s| s.to_string())
            .collect();
    // temp2 reads zero; in0 could not be read; temp3's label could not be read.
    let inputs: Vec<(String, bool)> = vec![
        ("temp1_input".to_string(), false),
        ("temp2_input".to_string(), true),
        ("temp3_input".to_string(), false),
        ("fan1_input".to_string(), true),
    ];
    let labels: Vec<(String, String)> = vec![("temp1_label".to_string(), "Core 0".to_string())];
    let mut counter = LabelCounter::new();
    let s = listing_sensors(
        "hwmon2",
        &names,
        &inputs,
        &labels,
        "coretemp",
        "Package id 0",
        "/sys/class/hwmon/hwmon2",
        true,
        false,
        true,
        true,
        &mut counter,
    );
    assert_eq!(s.len(), 3);
    assert_eq!(s[0].label, "coretemp Core 0");
    assert_eq!(s[0].key, "_temperature_hwmon2temp1_temp_");
    assert_eq!(s[0].input_path, "/sys/class/hwmon/hwmon2/temp1_input");
    assert_eq!(s[1].key, "_temperature_hwmon2temp3_temp_");
    assert_eq!(s[1].label, "coretemp CPU 0");
    assert_eq!(s[2].key, "_fan_hwmon2fan1_fan_");
    assert_eq!((s[2].category, s[2].format), (SensorCategory::Fan, SensorFormat::Fan));
    assert_eq!(s[2].label, "coretemp CPU 0 fan1");
}

#[test]
fn listing_sensors_number_labels_across_directories() {
    let names: Vec<String> = ["temp1_input", "temp1_label"].iter().map(|s| s.to_string()).collect();
    let inputs: Vec<(String, bool)> = vec![("temp1_input".to_string(), false)];
    let labels: Vec<(String, String)> = vec![("temp1_label".to_string(), "Composite".to_string())];
    let mut counter = LabelCounter::new();
    let mut all = Vec::new();
    for (dir, path) in [("hwmon1", "/sys/class/hwmon/hwmon1"), ("hwmon2", "/sys/class/hwmon/hwmon2"), ("hwmon3", "/sys/class/hwmon/hwmon3")] {
        all.extend(listing_sensors(
            dir, &names, &inputs, &labels, "nvme", "nvme", path, true, true, true, false, &mut counter,
        ));
    }
    let got: Vec<&str> = all.iter().map(|s| s.label.as_str()).collect();
    assert_eq!(got, vec!["nvme Composite", "nvme Composite 2", "nvme Composite 3"]);
    assert_eq!(all[1].key, "_temperature_hwmon2temp1_temp_");
}
