//! Temperatures from hwmon.
use crate::hwmon::{of_category, retain_category, HwmonSensor};
use crate::sensors::SensorCategory;
use vstd::prelude::*;

verus! {

/// Provider of temperature readings.
pub struct TemperatureProvider {
    pub sensors: Vec<HwmonSensor>,
    pub discovered: bool,
}

impl TemperatureProvider {
    /// A provider with no sensors discovered yet.
    pub fn new() -> (r: Self)
        ensures
            r.sensors@.len() == 0,
            !r.discovered,
    {
        TemperatureProvider { sensors: Vec::new(), discovered: false }
    }

    /// Keeps the temperature sensors of a discovery result, and marks
    /// discovery as done.
    pub fn set_sensors(&mut self, all: Vec<HwmonSensor>)
        ensures
            final(self).sensors@ == of_category(all@, SensorCategory::Temperature),
            final(self).discovered,
    {
        self.sensors = retain_category(all, SensorCategory::Temperature);
        self.discovered = true;
    }
}

} // verus!
