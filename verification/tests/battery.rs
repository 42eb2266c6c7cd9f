use sinfo::collectors::battery::{
    classify_chemistry, classify_status, collect, collect_battery, compute_power_from_current,
    BatteryCollector, PowerSupplyAttrs, PowerSupplyEntry,
};
use sinfo::model::battery::{BatteryChemistry, BatteryStatus};

fn empty() -> PowerSupplyAttrs {
    PowerSupplyAttrs {
        supply_type: None,
        manufacturer: None,
        model_name: None,
        technology: None,
        status: None,
        energy_full_design: None,
        energy_full: None,
        energy_now: None,
        voltage_now: None,
        power_now: None,
        current_now: None,
        capacity: None,
        cycle_count: None,
    }
}

fn s(v: &str) -> Option<String> {
    Some(v.to_string())
}

fn battery() -> PowerSupplyAttrs {
    PowerSupplyAttrs {
        supply_type: s("Battery\n"),
        manufacturer: s("SMP\n"),
        model_name: s("5B10W13975\n"),
        technology: s("Li-poly\n"),
        status: s("Discharging\n"),
        energy_full_design: s("57000000\n"),
        energy_full: s("51300000\n"),
        energy_now: s("40000000\n"),
        voltage_now: s("12000000\n"),
        power_now: None,
        current_now: s("1500000\n"),
        capacity: s("78\n"),
        cycle_count: s("123\n"),
    }
}

#[test]
fn battery_record_from_attributes() {
    let b = collect_battery("BAT0", &battery()).unwrap();
    assert_eq!(b.name, "BAT0");
    assert_eq!(b.manufacturer.as_deref(), Some("SMP"));
    assert_eq!(b.model_name.as_deref(), Some("5B10W13975"));
    assert_eq!(b.chemistry, BatteryChemistry::LithiumPolymer);
    assert_eq!(b.status, BatteryStatus::Discharging);
    assert_eq!(b.design_capacity_uwh, Some(57_000_000));
    assert_eq!(b.full_charge_capacity_uwh, Some(51_300_000));
    assert_eq!(b.remaining_capacity_uwh, Some(40_000_000));
    assert_eq!(b.voltage_now_uv, Some(12_000_000));
    // 1.5 A at 12 V
    assert_eq!(b.power_now_uw, Some(18_000_000));
    assert_eq!(b.capacity_percent, Some(78));
    assert_eq!(b.cycle_count, Some(123));
    assert_eq!(b.wear_inputs(), Some((51_300_000, 57_000_000)));
}

#[test]
fn power_now_takes_precedence() {
    let mut a = battery();
    a.power_now = s("9000000");
    assert_eq!(collect_battery("BAT0", &a).unwrap().power_now_uw, Some(9_000_000));
    a.power_now = None;
    a.current_now = None;
    assert_eq!(collect_battery("BAT0", &a).unwrap().power_now_uw, None);
}

#[test]
fn power_from_current_rounds_down() {
    let mut a = empty();
    a.current_now = s("3");
    a.voltage_now = s("333333");
    assert_eq!(compute_power_from_current(&a), Some(0));
    a.current_now = s("1000");
    assert_eq!(compute_power_from_current(&a), Some(333));
    a.voltage_now = None;
    assert_eq!(compute_power_from_current(&a), None);
}

#[test]
fn missing_attributes() {
    let mut a = empty();
    a.supply_type = s("Battery");
    a.capacity = s("300");
    let b = collect_battery("BAT1", &a).unwrap();
    assert_eq!(b.chemistry, BatteryChemistry::Unknown("unknown".to_string()));
    assert_eq!(b.status, BatteryStatus::Unknown);
    assert_eq!(b.capacity_percent, Some(44));
    assert_eq!(b.manufacturer, None);
    assert_eq!(b.wear_inputs(), None);
    a.energy_full = s("10");
    a.energy_full_design = s("0");
    assert_eq!(collect_battery("BAT1", &a).unwrap().wear_inputs(), None);
}

#[test]
fn chemistry_and_status_names() {
    assert_eq!(classify_chemistry("Li-ion"), BatteryChemistry::LithiumIon);
    assert_eq!(classify_chemistry("NiMH"), BatteryChemistry::NickelMetalHydride);
    assert_eq!(classify_chemistry("NiCd"), BatteryChemistry::NickelCadmium);
    assert_eq!(classify_chemistry("LiFePO4"), BatteryChemistry::Unknown("LiFePO4".to_string()));
    assert_eq!(classify_status("Charging"), BatteryStatus::Charging);
    assert_eq!(classify_status("Full"), BatteryStatus::Full);
    assert_eq!(classify_status("Not charging"), BatteryStatus::NotCharging);
    assert_eq!(classify_status("charging"), BatteryStatus::Unknown);
}

#[test]
fn collect_keeps_batteries_sorted_by_name() {
    let mut ac = empty();
    ac.supply_type = s("Mains\n");
    let entries = vec![
        PowerSupplyEntry { name: "BAT1".to_string(), attrs: battery() },
        PowerSupplyEntry { name: "AC".to_string(), attrs: ac },
        PowerSupplyEntry { name: "BAT0".to_string(), attrs: battery() },
        PowerSupplyEntry { name: "hidpp_battery_0".to_string(), attrs: empty() },
    ];
    let names: Vec<String> = collect(&entries).into_iter().map(|b| b.name).collect();
    assert_eq!(names, vec!["BAT0".to_string(), "BAT1".to_string()]);
}

#[test]
fn battery_collector_name() {
    assert_eq!(BatteryCollector.name(), "battery");
}
