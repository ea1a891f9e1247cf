use vitals_core::config::{join_path, join_path_bytes, AppConfig, GeneralConfig};
use vitals_core::sensors::{provider_plan, ProviderKind};

#[test]
fn default_settings() {
    let c = AppConfig::default();
    assert_eq!(c.general.update_time, 5);
    assert!(!c.general.use_higher_precision);
    assert!(c.general.alphabetize);
    assert_eq!(c.history.duration_seconds, 3600);
    assert_eq!(c.battery.slot, 0);
    assert_eq!(c.storage.path, "/");
    assert_eq!(c.memory.measurement, 1);
    let g = GeneralConfig::default();
    assert_eq!(g.update_time, 5);
}

#[test]
fn path_joining() {
    assert_eq!(join_path("/home/u/.config", "vitals"), "/home/u/.config/vitals");
    assert_eq!(join_path("/home/u/.config/", "vitals"), "/home/u/.config/vitals");
    assert_eq!(join_path("", "vitals"), "vitals");
    assert_eq!(join_path("/x", "/abs"), "/abs");
}

#[test]
fn file_locations() {
    assert_eq!(
        AppConfig::config_path_in(Some(b"/home/u/.config".to_vec())),
        b"/home/u/.config/vitals/config.toml".to_vec()
    );
    assert_eq!(AppConfig::config_path_in(None), b"/tmp/vitals/config.toml".to_vec());
    assert_eq!(AppConfig::cache_dir_in(Some(b"/home/u/.cache/".to_vec())), b"/home/u/.cache/vitals".to_vec());
    assert_eq!(AppConfig::cache_dir_in(None), b"/tmp/vitals".to_vec());
    assert!(AppConfig::history_path().ends_with(b"/vitals/history.json"));
    assert!(AppConfig::config_path().ends_with(b"/vitals/config.toml"));
}

#[test]
fn file_locations_keep_non_utf8_directories() {
    let dir = vec![b'/', b'h', 0xff, 0xfe, b'x'];
    let mut expected = dir.clone();
    expected.extend_from_slice(b"/vitals/config.toml");
    assert_eq!(AppConfig::config_path_in(Some(dir)), expected);
    assert_eq!(join_path_bytes(b"/a", b"/b"), b"/b".to_vec());
    assert_eq!(join_path_bytes(b"", b"b"), b"b".to_vec());
}

#[test]
fn provider_plan_follows_settings() {
    let mut c = AppConfig::default();
    c.temperature.show = true;
    c.voltage.show = false;
    c.fan.show = true;
    c.memory.show = false;
    c.processor.show = true;
    c.processor.include_static_info = true;
    c.system.show = true;
    c.network.show = false;
    c.storage.show = true;
    c.storage.path = "/home".to_string();
    c.battery.show = false;
    c.gpu.show = true;
    c.gpu.include_static_info = false;
    c.general.update_time = 7;
    let plan = provider_plan(&c);
    assert_eq!(plan.len(), 6);
    assert!(matches!(plan[0], ProviderKind::Temperature));
    assert!(matches!(plan[1], ProviderKind::Fan));
    assert!(matches!(plan[2], ProviderKind::Processor { include_static_info: true }));
    // The system provider follows the processor's static-info setting.
    assert!(matches!(plan[3], ProviderKind::System { include_static_info: true }));
    match &plan[4] {
        ProviderKind::Storage { path } => assert_eq!(path, "/home"),
        other => panic!("unexpected {other:?}"),
    }
    assert!(matches!(plan[5], ProviderKind::Gpu { update_time: 7, include_static_info: false }));
}

#[test]
fn provider_plan_nothing_shown() {
    let mut c = AppConfig::default();
    c.temperature.show = false;
    c.voltage.show = false;
    c.fan.show = false;
    c.memory.show = false;
    c.processor.show = false;
    c.system.show = false;
    c.network.show = false;
    c.storage.show = false;
    c.battery.show = false;
    c.gpu.show = false;
    assert!(provider_plan(&c).is_empty());
}
