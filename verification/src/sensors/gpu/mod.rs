//! GPU readings: NVIDIA cards through `nvidia-smi`, other cards through DRM
//! sysfs.
pub mod drm;
pub mod nvidia;

use vstd::prelude::*;

verus! {

/// Unified GPU provider: `N` is the NVIDIA query process when one runs,
/// otherwise the DRM cards found are queried.
pub struct GpuProvider<N> {
    pub nvidia: Option<N>,
    pub drm_cards: Vec<drm::DrmCard>,
    pub update_time: u32,
    pub include_static_info: bool,
    pub discovered: bool,
}

impl<N> GpuProvider<N> {
    /// A provider polling every `update_time` seconds, before discovery.
    pub fn new(update_time: u32, include_static_info: bool) -> (r: Self)
        ensures
            r.nvidia is None,
            r.drm_cards@.len() == 0,
            r.update_time == update_time,
            r.include_static_info == include_static_info,
            !r.discovered,
    {
        GpuProvider {
            nvidia: None,
            drm_cards: Vec::new(),
            update_time,
            include_static_info,
            discovered: false,
        }
    }
}

} // verus!
