use vitals_core::sensors::processor::{core_key, core_label};
use vitals_core::sensors::processor::{CpuTotals, ProcStat, ProcessorProvider};

const PROC_STAT_SAMPLE: &str = "\
cpu  10000 500 3000 80000 200 0 100 0 0 0
cpu0 2500 125 750 20000 50 0 25 0 0 0
cpu1 2500 125 750 20000 50 0 25 0 0 0
cpu2 2500 125 750 20000 50 0 25 0 0 0
cpu3 2500 125 750 20000 50 0 25 0 0 0
intr 123456
";

const PROC_STAT_SAMPLE2: &str = "\
cpu  10500 520 3100 80500 210 0 110 0 0 0
cpu0 2600 130 780 20100 52 0 28 0 0 0
cpu1 2650 130 770 20100 53 0 27 0 0 0
cpu2 2600 130 775 20150 52 0 27 0 0 0
cpu3 2650 130 775 20150 53 0 28 0 0 0
intr 123789
";

/// The aggregate usage of a sample, as the provider reports it.
fn usage(stat: &ProcStat, dwell: f64) -> Option<f64> {
    let s = stat.samples.iter().find(|s| s.aggregate)?;
    let prev = s.previous?;
    let d = if dwell > 0.0 { dwell } else { 1.0 };
    if stat.cores == 0 {
        return None;
    }
    Some((s.total as f64 - prev as f64) / d / stat.cores as f64 / 100.0)
}

#[test]
fn parse_proc_stat_first_call_no_readings() {
    let mut last_totals = CpuTotals::new();
    let stat = ProcessorProvider::parse_proc_stat(PROC_STAT_SAMPLE, &mut last_totals);
    // First call: no previous data, so nothing to report
    assert!(stat.samples.iter().all(|s| s.previous.is_none()));
    // But the totals should be stored
    assert!(!last_totals.is_empty());
    assert_eq!(stat.cores, 4);
}

#[test]
fn parse_proc_stat_second_call_produces_readings() {
    let mut last_totals = CpuTotals::new();
    let _ = ProcessorProvider::parse_proc_stat(PROC_STAT_SAMPLE, &mut last_totals);
    let stat = ProcessorProvider::parse_proc_stat(PROC_STAT_SAMPLE2, &mut last_totals);
    assert_eq!(stat.cores, 4);
    assert!(usage(&stat, 1.0).is_some(), "Missing aggregate usage reading");
    for i in 0..4 {
        let core = i.to_string();
        assert!(
            stat.samples.iter().any(|s| !s.aggregate && s.core == core && s.previous.is_some()),
            "Missing core {i} reading"
        );
    }
}

#[test]
fn parse_proc_stat_usage_delta_calculation() {
    let mut last_totals = CpuTotals::new();
    let _ = ProcessorProvider::parse_proc_stat(PROC_STAT_SAMPLE, &mut last_totals);
    let stat = ProcessorProvider::parse_proc_stat(PROC_STAT_SAMPLE2, &mut last_totals);
    // Aggregate: old total = 13500, new total = 14120, usage = 620 / 4 / 100 = 1.55
    let u = usage(&stat, 1.0).unwrap();
    assert!((u - 1.55).abs() < 1e-6, "Usage was {u}, expected 1.55");
}

#[test]
fn parse_proc_stat_respects_dwell() {
    let mut last_totals = CpuTotals::new();
    let _ = ProcessorProvider::parse_proc_stat(PROC_STAT_SAMPLE, &mut last_totals);
    let stat = ProcessorProvider::parse_proc_stat(PROC_STAT_SAMPLE2, &mut last_totals);
    let u = usage(&stat, 2.0).unwrap();
    assert!((u - 0.775).abs() < 1e-6, "Usage was {u}, expected 0.775");
}

#[test]
fn parse_proc_stat_zero_dwell_defaults_to_one() {
    let mut last_totals = CpuTotals::new();
    let _ = ProcessorProvider::parse_proc_stat(PROC_STAT_SAMPLE, &mut last_totals);
    let stat = ProcessorProvider::parse_proc_stat(PROC_STAT_SAMPLE2, &mut last_totals);
    let u = usage(&stat, 0.0).unwrap();
    assert!((u - 1.55).abs() < 1e-6, "Usage was {u}, expected 1.55");
}

#[test]
fn parse_proc_stat_empty_string() {
    let mut last_totals = CpuTotals::new();
    let stat = ProcessorProvider::parse_proc_stat("", &mut last_totals);
    assert!(stat.samples.is_empty());
    assert_eq!(stat.cores, 0);
}

#[test]
fn parse_proc_stat_single_cpu_no_cores() {
    let stat = "cpu  1000 200 300 5000 10 0 5 0 0 0\n";
    let mut last_totals = CpuTotals::new();
    let r = ProcessorProvider::parse_proc_stat(stat, &mut last_totals);
    // Only the aggregate "cpu" line, no per-core lines => cores = 0
    assert_eq!(r.cores, 0);
}

#[test]
fn proc_stat_totals_are_user_nice_system() {
    let mut last_totals = CpuTotals::new();
    let stat = ProcessorProvider::parse_proc_stat(PROC_STAT_SAMPLE, &mut last_totals);
    let agg = stat.samples.iter().find(|s| s.aggregate).unwrap();
    assert_eq!(agg.total, 13500);
    assert_eq!(last_totals.get(&"cpu0".chars().collect::<Vec<char>>()), Some(3375));
    assert_eq!(last_totals.len(), 5);
}

// --- cpuinfo frequency tests ---

#[test]
fn parse_cpuinfo_frequencies_standard() {
    let cpuinfo = "\
processor\t: 0
vendor_id\t: GenuineIntel
cpu MHz\t\t: 3400.000
cache size\t: 12288 KB

processor\t: 1
vendor_id\t: GenuineIntel
cpu MHz\t\t: 3200.500
cache size\t: 12288 KB
";
    let freqs = ProcessorProvider::parse_cpuinfo_frequencies(cpuinfo);
    assert_eq!(freqs.len(), 2);
    let hz: Vec<f64> = freqs.iter().map(|m| m.parse::<f64>().unwrap() * 1_000_000.0).collect();
    assert!((hz[0] - 3_400_000_000.0).abs() < 1e-3);
    assert!((hz[1] - 3_200_500_000.0).abs() < 1e-3);
}

#[test]
fn parse_cpuinfo_frequencies_empty() {
    assert!(ProcessorProvider::parse_cpuinfo_frequencies("").is_empty());
}

#[test]
fn parse_cpuinfo_frequencies_no_mhz_lines() {
    let cpuinfo = "processor\t: 0\nvendor_id\t: GenuineIntel\n";
    assert!(ProcessorProvider::parse_cpuinfo_frequencies(cpuinfo).is_empty());
}

#[test]
fn parse_cpu_static_facts() {
    let cpuinfo = "\
vendor_id\t: GenuineIntel
physical id\t: 0
bogomips\t: 5999.85
cache size\t: 12288 KB
vendor_id\t: GenuineIntel
physical id\t: 0
";
    let f = ProcessorProvider::parse_cpu_static(cpuinfo);
    assert_eq!(f.vendor_id, "GenuineIntel");
    assert_eq!(f.bogomips, "5999.85");
    assert_eq!(f.cache.as_deref(), Some("12288"));
    assert_eq!(f.sockets.len(), 1);
}

#[test]
fn provider_state() {
    let mut p = ProcessorProvider::new(true);
    assert!(p.uses_cpu_info());
    p.use_cpufreq();
    assert!(!p.uses_cpu_info());
    p.record_speed(" 1800000\n");
    p.record_speed("garbage");
    assert_eq!(p.speeds(), &vec!["1800000".to_string()]);
    p.clear_speeds();
    assert!(p.speeds().is_empty());
    assert!(p.take_static_due());
    assert!(!p.take_static_due());
    let mut q = ProcessorProvider::new(false);
    assert!(!q.take_static_due());
    let stat = p.sample_stats(PROC_STAT_SAMPLE);
    assert_eq!(stat.cores, 4);
    let stat = p.sample_stats(PROC_STAT_SAMPLE2);
    assert!((usage(&stat, 1.0).unwrap() - 1.55).abs() < 1e-6);
}

#[test]
fn core_keys_and_labels() {
    assert_eq!(core_key("3"), "_processor_core3_");
    assert_eq!(core_label("3"), "Core 3");
}

#[test]
fn known_cores_counts_all_but_the_aggregate() {
    let mut p = ProcessorProvider::new(false);
    assert_eq!(p.known_cores(), 0);
    let _ = p.sample_stats(PROC_STAT_SAMPLE);
    assert_eq!(p.known_cores(), 4);
}
