//! DRM GPU cards: naming and vendor identification.
use crate::text::{chars_eq_str, chars_of, decimal, decimal_chars, push_all, push_str, string_of};
use vstd::prelude::*;

verus! {

broadcast use vstd::string::group_string_axioms;

/// A discovered DRM GPU card.
#[derive(Debug, Clone)]
pub struct DrmCard {
    pub index: u8,
    pub vendor: String,
}

/// The name shown for a PCI vendor id: the known vendors by name, others by
/// their id.
pub open spec fn vendor_display(vendor: Seq<char>) -> Seq<char> {
    if vendor == "0x10DE"@ {
        "NVIDIA"@
    } else if vendor == "0x13B5"@ {
        "ARM"@
    } else if vendor == "0x5143"@ {
        "Qualcomm"@
    } else if vendor == "0x8086"@ {
        "Intel"@
    } else {
        vendor
    }
}

impl DrmCard {
    /// The card's GPU number: its index plus one.
    pub fn gpu_number(&self) -> (r: u8)
        requires
            self.index < 255,
        ensures
            r == self.index + 1,
    {
        self.index + 1
    }

    /// Whether the card is an AMD GPU (vendor id `0x1002`).
    pub fn is_amd(&self) -> (r: bool)
        ensures
            r == (self.vendor@ == "0x1002"@),
    {
        let v = chars_of(self.vendor.as_str());
        chars_eq_str(v.as_slice(), "0x1002")
    }

    /// The name shown for the card's vendor.
    pub fn vendor_name(&self) -> (r: String)
        ensures
            r@ == vendor_display(self.vendor@),
    {
        let v = chars_of(self.vendor.as_str());
        let s = v.as_slice();
        if chars_eq_str(s, "0x10DE") {
            "NVIDIA".to_string()
        } else if chars_eq_str(s, "0x13B5") {
            "ARM".to_string()
        } else if chars_eq_str(s, "0x5143") {
            "Qualcomm".to_string()
        } else if chars_eq_str(s, "0x8086") {
            "Intel".to_string()
        } else {
            self.vendor.clone()
        }
    }

    /// The card's sysfs device directory: `/sys/class/drm/card<index>/device`.
    pub fn device_dir(&self) -> (r: String)
        ensures
            r@ == "/sys/class/drm/card"@ + decimal(self.index as nat) + "/device"@,
    {
        let mut v = chars_of("/sys/class/drm/card");
        let d = decimal_chars(self.index as u64);
        push_all(&mut v, d.as_slice());
        push_str(&mut v, "/device");
        string_of(v.as_slice())
    }
}

/// The vendor file of card `i`: `/sys/class/drm/card<i>/device/vendor`.
pub fn vendor_path(i: u8) -> (r: String)
    ensures
        r@ == "/sys/class/drm/card"@ + decimal(i as nat) + "/device/vendor"@,
{
    let mut v = chars_of("/sys/class/drm/card");
    let d = decimal_chars(i as u64);
    push_all(&mut v, d.as_slice());
    push_str(&mut v, "/device/vendor");
    string_of(v.as_slice())
}

} // verus!
