use vitals_core::sensors::memory::MemoryProvider;

const SAMPLE_MEMINFO: &str = "\
MemTotal:       16244256 kB
MemFree:          524288 kB
MemAvailable:    8122128 kB
Buffers:          262144 kB
Cached:          4194304 kB
SwapCached:        65536 kB
SwapTotal:       8388608 kB
SwapFree:        7340032 kB
";

#[test]
fn test_parse_meminfo() {
    let f = MemoryProvider::parse_meminfo(SAMPLE_MEMINFO);
    let total: f64 = f.total.unwrap().parse().unwrap();
    let avail: f64 = f.avail.unwrap().parse().unwrap();
    // Usage = (total - avail) / total
    assert!(((total - avail) / total - 0.5).abs() < 0.01);
    // Physical = total
    assert!((total - 16244256.0).abs() < 1.0);
    assert_eq!(f.swap_total.as_deref(), Some("8388608"));
    assert_eq!(f.swap_free.as_deref(), Some("7340032"));
    // `Cached:` is not `SwapCached:`
    assert_eq!(f.cached.as_deref(), Some("4194304"));
    assert_eq!(f.mem_free.as_deref(), Some("524288"));
}

#[test]
fn meminfo_missing_fields() {
    let f = MemoryProvider::parse_meminfo("MemTotal: lots kB\n");
    assert!(f.total.is_none());
    assert!(f.avail.is_none());
}
