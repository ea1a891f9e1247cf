use vitals_core::text::parse_trimmed_u64;
use vitals_core::sensors::network::{
    interface_counter_key, interface_counter_label, reports_interface_counter, NetworkProvider,
};

const WIRELESS_SAMPLE: &str = "\
Inter-| sta-|   Quality        |   Discarded packets               | Missed | WE
 face | tus | link level noise |  nwid  crypt   frag  retry   misc | beacon | 22
 wlan0: 0000   52.  -58.  -256        0      0      0      0      0        0
";

fn quality(q: &Option<String>) -> f64 {
    q.as_ref().unwrap().parse::<f64>().unwrap() / 70.0
}

#[test]
fn parse_wireless_standard() {
    let f = NetworkProvider::parse_wireless(WIRELESS_SAMPLE);
    assert_eq!(f.len(), 1);
    // 52 / 70 = 0.7428...
    assert!((quality(&f[0].quality) - 52.0 / 70.0).abs() < 1e-6);
    let signal: f64 = f[0].signal.as_ref().unwrap().parse().unwrap();
    assert_eq!(signal.to_string(), "-58");
}

#[test]
fn parse_wireless_max_quality() {
    let contents = "\
Inter-| sta-|   Quality        |   Discarded packets               | Missed | WE
 face | tus | link level noise |  nwid  crypt   frag  retry   misc | beacon | 22
 wlan0: 0000   70.  -30.  -256        0      0      0      0      0        0
";
    let f = NetworkProvider::parse_wireless(contents);
    assert!((quality(&f[0].quality) - 1.0).abs() < 1e-6);
}

#[test]
fn parse_wireless_zero_quality() {
    let contents = "\
Inter-| sta-|   Quality        |   Discarded packets               | Missed | WE
 face | tus | link level noise |  nwid  crypt   frag  retry   misc | beacon | 22
 wlan0: 0000   0.  -90.  -256        0      0      0      0      0        0
";
    let f = NetworkProvider::parse_wireless(contents);
    assert!((quality(&f[0].quality) - 0.0).abs() < 1e-6);
}

#[test]
fn parse_wireless_empty() {
    assert!(NetworkProvider::parse_wireless("").is_empty());
}

#[test]
fn parse_wireless_header_only() {
    let contents = "\
Inter-| sta-|   Quality        |   Discarded packets               | Missed | WE
 face | tus | link level noise |  nwid  crypt   frag  retry   misc | beacon | 22
";
    assert!(NetworkProvider::parse_wireless(contents).is_empty());
}

#[test]
fn parse_wireless_multiple_interfaces() {
    let contents = "\
Inter-| sta-|   Quality        |   Discarded packets               | Missed | WE
 face | tus | link level noise |  nwid  crypt   frag  retry   misc | beacon | 22
 wlan0: 0000   52.  -58.  -256        0      0      0      0      0        0
 wlan1: 0000   35.  -73.  -256        0      0      0      0      0        0
";
    let f = NetworkProvider::parse_wireless(contents);
    // Two interfaces, each with quality and signal
    assert_eq!(f.len(), 2);
    assert!(f.iter().all(|w| w.quality.is_some() && w.signal.is_some()));
}

#[test]
fn interface_counters() {
    assert!(reports_interface_counter("lo", "tx"));
    assert!(!reports_interface_counter("lo", "rx"));
    assert!(reports_interface_counter("eth0", "rx"));
    assert_eq!(interface_counter_key("eth0", "rx"), "_network_eth0_rx_");
    assert_eq!(interface_counter_label("eth0", "rx"), "eth0 rx");
    assert_eq!(interface_counter_label("lo", "tx"), "lo");
}

#[test]
fn public_ip_checked_once_an_hour() {
    let mut p = NetworkProvider::new(true);
    assert!(p.include_public_ip());
    assert!(p.begin_ip_check(5000));
    for _ in 0..719 {
        assert!(!p.begin_ip_check(5000));
    }
    assert!(p.begin_ip_check(5000));
}

#[test]
fn public_ip_from_service_answer() {
    let mut p = NetworkProvider::new(true);
    assert!(p.public_ip().is_none());
    p.record_public_ip("{\"IPv4\": \"203.0.113.7\"}");
    assert_eq!(p.public_ip().as_deref(), Some("203.0.113.7"));
    p.record_public_ip("not json");
    assert_eq!(p.public_ip().as_deref(), Some("203.0.113.7"));
    p.record_public_ip("{\"IPv4\": 7}");
    assert_eq!(p.public_ip().as_deref(), Some("203.0.113.7"));
}

#[test]
fn counter_file_text_parses_trimmed() {
    assert_eq!(parse_trimmed_u64("123456\n"), Some(123456));
    assert_eq!(parse_trimmed_u64("  42 "), Some(42));
    assert_eq!(parse_trimmed_u64("+7"), Some(7));
    assert_eq!(parse_trimmed_u64("18446744073709551615"), Some(u64::MAX));
    assert_eq!(parse_trimmed_u64("18446744073709551616"), None);
    assert_eq!(parse_trimmed_u64(""), None);
    assert_eq!(parse_trimmed_u64("-1"), None);
    assert_eq!(parse_trimmed_u64("12 3"), None);
}

#[test]
fn public_ip_taken_from_parsed_member() {
    let mut p = NetworkProvider::new(true);
    p.take_public_ip(None);
    assert!(p.public_ip().is_none());
    p.take_public_ip(Some("198.51.100.4".to_string()));
    assert_eq!(p.public_ip().as_deref(), Some("198.51.100.4"));
    p.take_public_ip(None);
    assert_eq!(p.public_ip().as_deref(), Some("198.51.100.4"));
    p.take_public_ip(Some("192.0.2.1".to_string()));
    assert_eq!(p.public_ip().as_deref(), Some("192.0.2.1"));
}
