//! Fan speeds from hwmon.
use crate::hwmon::{of_category, retain_category, HwmonSensor};
use crate::sensors::SensorCategory;
use vstd::prelude::*;

verus! {

/// Provider of fan readings.
pub struct FanProvider {
    pub sensors: Vec<HwmonSensor>,
}

impl FanProvider {
    /// A provider with no sensors discovered yet.
    pub fn new() -> (r: Self)
        ensures
            r.sensors@.len() == 0,
    {
        FanProvider { sensors: Vec::new() }
    }

    /// Keeps the fan sensors of a discovery result.
    pub fn set_sensors(&mut self, all: Vec<HwmonSensor>)
        ensures
            final(self).sensors@ == of_category(all@, SensorCategory::Fan),
    {
        self.sensors = retain_category(all, SensorCategory::Fan);
    }
}

} // verus!
