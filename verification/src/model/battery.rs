use vstd::prelude::*;

verus! {

/// Cell chemistry of a battery, as the `technology` attribute names it.
#[derive(Debug, Clone, PartialEq, Eq)]
pub enum BatteryChemistry {
    LithiumIon,
    LithiumPolymer,
    NickelMetalHydride,
    NickelCadmium,
    Unknown(String),
}

/// Charging state of a battery, as the `status` attribute names it.
#[derive(Debug, Clone, Copy, PartialEq, Eq)]
pub enum BatteryStatus {
    Charging,
    Discharging,
    Full,
    NotCharging,
    Unknown,
}

/// One battery. Energies are in µWh, voltage in µV, power in µW.
#[derive(Debug, Clone)]
pub struct BatteryInfo {
    pub name: String,
    pub manufacturer: Option<String>,
    pub model_name: Option<String>,
    pub chemistry: BatteryChemistry,
    pub status: BatteryStatus,
    pub design_capacity_uwh: Option<u64>,
    pub full_charge_capacity_uwh: Option<u64>,
    pub remaining_capacity_uwh: Option<u64>,
    pub voltage_now_uv: Option<u64>,
    pub power_now_uw: Option<u64>,
    pub capacity_percent: Option<u8>,
    pub cycle_count: Option<u32>,
}

impl BatteryInfo {
    /// The full-charge and design capacities from which the wear of the
    /// battery (`1 - full / design`) is computed; `None` where either is
    /// unknown or the design capacity is zero.
    pub fn wear_inputs(&self) -> (r: Option<(u64, u64)>)
        ensures
            r == (match (self.full_charge_capacity_uwh, self.design_capacity_uwh) {
                (Some(full), Some(design)) if design > 0 => Some((full, design)),
                _ => None,
            }),
    {
        match (self.full_charge_capacity_uwh, self.design_capacity_uwh) {
            (Some(full), Some(design)) => {
                if design > 0 {
                    Some((full, design))
                } else {
                    None
                }
            },
            _ => None,
        }
    }
}

} // verus!
