use vitals_core::sensors::storage::{filesystem_usage, StorageProvider};

const ARCSTATS_SAMPLE: &str = "\
5 1 0x01 86 4832 7741953495
name                            type data
hits                            4    12345678
misses                          4    1234567
demand_data_hits                4    9876543
c                               4    8589934592
c_max                           4    17179869184
size                            4    6442450944
";

#[test]
fn parse_arcstats_standard() {
    let a = StorageProvider::parse_arcstats(ARCSTATS_SAMPLE).unwrap();
    assert_eq!(a.target, 8_589_934_592);
    assert_eq!(a.maximum, 17_179_869_184);
    assert_eq!(a.current, 6_442_450_944);
}

#[test]
fn parse_arcstats_zero_target_no_readings() {
    let contents = "name type data\nhits 4 100\n";
    assert!(StorageProvider::parse_arcstats(contents).is_none());
}

#[test]
fn parse_arcstats_empty() {
    assert!(StorageProvider::parse_arcstats("").is_none());
}

// Columns: major minor name reads_completed reads_merged sectors_read ms_reading
//          writes_completed writes_merged sectors_written ms_writing ...
const DISKSTATS_SAMPLE: &str = "\
   8       0 sda 12345 6789 200000 54321 9876 5432 100000 12345 0 43210 66666
   8       1 sda1 11111 5555 180000 44444 8888 4444 90000 11111 0 38888 55555
   8      16 sdb 1000 500 50000 2000 500 250 25000 1000 0 2500 3000
";

/// A rate in bytes per second, as the provider reports it.
fn rate(delta: u64, dwell: f64) -> f64 {
    delta as f64 / if dwell > 0.0 { dwell } else { 1.0 }
}

#[test]
fn parse_diskstats_first_call() {
    let mut last_read = 0u64;
    let mut last_write = 0u64;
    let io = StorageProvider::parse_diskstats(DISKSTATS_SAMPLE, "/dev/sda", &mut last_read, &mut last_write)
        .unwrap();
    // First call: totals but no rates
    assert!(io.deltas.is_none());
    assert_eq!(io.read, 200000 * 512);
    assert_eq!(io.write, 100000 * 512);
    assert_eq!(last_read, 200000 * 512);
    assert_eq!(last_write, 100000 * 512);
}

#[test]
fn parse_diskstats_second_call_with_rates() {
    let mut last_read = 100000u64 * 512;
    let mut last_write = 50000u64 * 512;
    let io = StorageProvider::parse_diskstats(DISKSTATS_SAMPLE, "/dev/sda", &mut last_read, &mut last_write)
        .unwrap();
    let (dr, dw) = io.deltas.unwrap();
    let expected_read_rate = (200000 * 512 - 100000 * 512) as f64 / 2.0;
    assert!((rate(dr, 2.0) - expected_read_rate).abs() < 1e-3);
    let expected_write_rate = (100000 * 512 - 50000 * 512) as f64 / 2.0;
    assert!((rate(dw, 2.0) - expected_write_rate).abs() < 1e-3);
}

#[test]
fn parse_diskstats_specific_device() {
    let mut last_read = 0u64;
    let mut last_write = 0u64;
    let io = StorageProvider::parse_diskstats(DISKSTATS_SAMPLE, "/dev/sdb", &mut last_read, &mut last_write)
        .unwrap();
    assert!(io.deltas.is_none());
    assert_eq!(io.read, 50000 * 512);
}

#[test]
fn parse_diskstats_device_not_found() {
    let mut last_read = 0u64;
    let mut last_write = 0u64;
    let io = StorageProvider::parse_diskstats(DISKSTATS_SAMPLE, "/dev/nvme0n1", &mut last_read, &mut last_write);
    assert!(io.is_none());
    assert_eq!(last_read, 0);
}

#[test]
fn parse_diskstats_empty() {
    let mut last_read = 0u64;
    let mut last_write = 0u64;
    assert!(StorageProvider::parse_diskstats("", "/dev/sda", &mut last_read, &mut last_write).is_none());
}

#[test]
fn parse_diskstats_zero_dwell_defaults_to_one() {
    let mut last_read = 100000u64 * 512;
    let mut last_write = 50000u64 * 512;
    let io = StorageProvider::parse_diskstats(DISKSTATS_SAMPLE, "/dev/sda", &mut last_read, &mut last_write)
        .unwrap();
    let (dr, _) = io.deltas.unwrap();
    let expected = (200000 * 512 - 100000 * 512) as f64 / 1.0;
    assert!((rate(dr, 0.0) - expected).abs() < 1e-3);
}

#[test]
fn find_storage_device_from_mounts() {
    let mut p = StorageProvider::new("/".to_string());
    let mounts = "proc /proc proc rw 0 0\n/dev/nvme0n1p2 / ext4 rw 0 0\n/dev/sda1 /home ext4 rw 0 0\n";
    p.find_storage_device(mounts);
    assert_eq!(p.storage_device.as_deref(), Some("/dev/nvme0n1p2"));
    // No mount at the path keeps the device found before.
    p.find_storage_device("proc /proc proc rw 0 0\n");
    assert_eq!(p.storage_device.as_deref(), Some("/dev/nvme0n1p2"));
}

#[test]
fn filesystem_usage_in_bytes() {
    let u = filesystem_usage(1000, 400, 300, 4096);
    assert_eq!(u.total, 1000 * 4096);
    assert_eq!(u.used, 600 * 4096);
    assert_eq!(u.free, 400 * 4096);
    assert_eq!(u.available, 300 * 4096);
}
