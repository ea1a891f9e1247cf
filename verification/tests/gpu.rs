use vitals_core::sensors::gpu::drm::{vendor_path, DrmCard};
use vitals_core::sensors::gpu::GpuProvider;

#[test]
fn drm_card_names() {
    let c = DrmCard { index: 1, vendor: "0x8086".to_string() };
    assert_eq!(c.gpu_number(), 2);
    assert!(!c.is_amd());
    assert_eq!(c.vendor_name(), "Intel");
    assert_eq!(c.device_dir(), "/sys/class/drm/card1/device");
    let amd = DrmCard { index: 0, vendor: "0x1002".to_string() };
    assert!(amd.is_amd());
    assert_eq!(amd.vendor_name(), "0x1002");
    assert_eq!(DrmCard { index: 0, vendor: "0x10DE".to_string() }.vendor_name(), "NVIDIA");
    assert_eq!(vendor_path(12), "/sys/class/drm/card12/device/vendor");
}

#[test]
fn gpu_provider_starts_undiscovered() {
    let p: GpuProvider<()> = GpuProvider::new(5, true);
    assert!(p.nvidia.is_none());
    assert!(p.drm_cards.is_empty());
    assert_eq!(p.update_time, 5);
    assert!(p.include_static_info);
    assert!(!p.discovered);
}
