use vitals_core::sensors::system::SystemProvider;
use vitals_core::sensors::PollState;

fn number(token: &Option<String>) -> f64 {
    token.as_ref().unwrap().parse::<f64>().unwrap()
}

// --- file-nr tests ---

#[test]
fn parse_file_nr_standard() {
    let contents = "2048\t0\t1048576\n";
    assert_eq!(SystemProvider::parse_file_nr(contents), "2048");
}

#[test]
fn parse_file_nr_empty() {
    // Empty string: the first field is empty
    assert_eq!(SystemProvider::parse_file_nr(""), "");
}

// --- loadavg tests ---

#[test]
fn parse_loadavg_standard() {
    let contents = "0.52 0.38 0.41 3/1234 56789\n";
    let f = SystemProvider::parse_loadavg(contents).unwrap();
    assert!((number(&f.load1) - 0.52).abs() < 1e-6);
    assert!((number(&f.load5) - 0.38).abs() < 1e-6);
    assert!((number(&f.load15) - 0.41).abs() < 1e-6);
    let (active, total) = f.threads.unwrap();
    assert_eq!(active, "3");
    assert_eq!(total, "1234");
}

#[test]
fn parse_loadavg_high_load() {
    let contents = "12.50 8.30 4.10 15/2000 99999\n";
    let f = SystemProvider::parse_loadavg(contents).unwrap();
    assert!((number(&f.load1) - 12.50).abs() < 1e-6);
}

#[test]
fn parse_loadavg_too_short() {
    assert!(SystemProvider::parse_loadavg("0.50 0.30\n").is_none());
}

#[test]
fn parse_loadavg_empty() {
    assert!(SystemProvider::parse_loadavg("").is_none());
}

#[test]
fn parse_loadavg_skips_what_is_not_a_number() {
    let f = SystemProvider::parse_loadavg("x 0.38 inf 3-1234").unwrap();
    assert!(f.load1.is_none());
    assert_eq!(f.load5.as_deref(), Some("0.38"));
    assert_eq!(f.load15.as_deref(), Some("inf"));
    assert!(f.threads.is_none());
}

// --- uptime tests ---

#[test]
fn parse_uptime_standard() {
    let t = SystemProvider::parse_uptime("123456.78 234567.89\n");
    assert!((number(&t) - 123456.78).abs() < 1e-6);
}

#[test]
fn parse_uptime_empty() {
    assert!(SystemProvider::parse_uptime("").is_none());
}

#[test]
fn parse_uptime_garbage() {
    assert!(SystemProvider::parse_uptime("not-a-number").is_none());
}

// --- version tests ---

#[test]
fn parse_version_standard() {
    let contents = "Linux version 6.8.0-40-generic (buildd@lcy02) (gcc ...)";
    assert_eq!(SystemProvider::parse_version(contents).unwrap(), "6.8.0-40-generic");
}

#[test]
fn parse_version_too_short() {
    assert!(SystemProvider::parse_version("Linux version").is_none());
}

#[test]
fn system_provider_remembers_static_setting() {
    assert!(SystemProvider::new(true).include_static_info);
    assert!(!SystemProvider::new(false).include_static_info);
}

#[test]
fn discovery_on_first_poll_only() {
    let mut state = PollState::new();
    assert!(state.begin_poll());
    assert!(!state.begin_poll());
    assert!(!state.begin_poll());
}
