//! Batteries, from the entries of `/sys/class/power_supply`.
use vstd::prelude::*;
use crate::model::battery::{BatteryChemistry, BatteryInfo, BatteryStatus};
use crate::numparse::{opt_nat, opt_nat32, opt_nat8};
use crate::platform::sysfs::{
    read_string_optional, read_u32_optional, read_u64_optional, string_attr, u32_attr, u64_attr,
};
use crate::sorting::{
    is_stable_sort_of, key_lt, lemma_stable_sort_is_sorted, stable_sort, str_lt, SortKey,
};
use crate::text::{opt_str, seq_lt, str_eq, to_owned_string};

verus! {

/// The contents of the attribute files of one power supply, each `None`
/// where the file could not be read. Fields are named after the files.
pub struct PowerSupplyAttrs {
    pub supply_type: Option<String>,
    pub manufacturer: Option<String>,
    pub model_name: Option<String>,
    pub technology: Option<String>,
    pub status: Option<String>,
    pub energy_full_design: Option<String>,
    pub energy_full: Option<String>,
    pub energy_now: Option<String>,
    pub voltage_now: Option<String>,
    pub power_now: Option<String>,
    pub current_now: Option<String>,
    pub capacity: Option<String>,
    pub cycle_count: Option<String>,
}

/// One entry of the power-supply class: its directory name and attributes.
pub struct PowerSupplyEntry {
    pub name: String,
    pub attrs: PowerSupplyAttrs,
}

/// The collector of battery information.
pub struct BatteryCollector;

impl BatteryCollector {
    pub fn name(&self) -> (r: &'static str)
        ensures
            r@ == "battery"@,
    {
        "battery"
    }
}

/// `c` is the chemistry that the technology name `tech` stands for.
pub open spec fn chemistry_for(tech: Seq<char>, c: BatteryChemistry) -> bool {
    match c {
        BatteryChemistry::LithiumIon => tech == "Li-ion"@,
        BatteryChemistry::LithiumPolymer => tech == "Li-poly"@,
        BatteryChemistry::NickelMetalHydride => tech == "NiMH"@,
        BatteryChemistry::NickelCadmium => tech == "NiCd"@,
        BatteryChemistry::Unknown(s) => {
            &&& s@ == tech
            &&& tech != "Li-ion"@
            &&& tech != "Li-poly"@
            &&& tech != "NiMH"@
            &&& tech != "NiCd"@
        },
    }
}

/// The charging state that the status name `st` stands for.
pub open spec fn status_for(st: Seq<char>) -> BatteryStatus {
    if st == "Charging"@ {
        BatteryStatus::Charging
    } else if st == "Discharging"@ {
        BatteryStatus::Discharging
    } else if st == "Full"@ {
        BatteryStatus::Full
    } else if st == "Not charging"@ {
        BatteryStatus::NotCharging
    } else {
        BatteryStatus::Unknown
    }
}

/// The entry is a battery: its `type` attribute reads `Battery`.
pub open spec fn is_battery(a: PowerSupplyAttrs) -> bool {
    string_attr(a.supply_type.deep_view()) == Some("Battery"@)
}

/// Power drawn from current and voltage (µA × µV / 10⁶ = µW), where both are known.
pub open spec fn power_from_current(a: PowerSupplyAttrs) -> Option<nat> {
    match (u64_attr(a.current_now.deep_view()), u64_attr(a.voltage_now.deep_view())) {
        (Some(i), Some(v)) => Some(i * v / 1_000_000),
        _ => None,
    }
}

/// The power of the battery: `power_now`, else derived from current and voltage.
pub open spec fn battery_power(a: PowerSupplyAttrs) -> Option<nat> {
    match u64_attr(a.power_now.deep_view()) {
        Some(p) => Some(p),
        None => power_from_current(a),
    }
}

/// Where the power is derived from current and voltage, their product fits in
/// 64 bits (the multiplication overflows otherwise).
pub open spec fn power_fits(a: PowerSupplyAttrs) -> bool {
    u64_attr(a.power_now.deep_view()) is None ==> match (
        u64_attr(a.current_now.deep_view()),
        u64_attr(a.voltage_now.deep_view()),
    ) {
        (Some(i), Some(v)) => i * v <= u64::MAX,
        _ => true,
    }
}

/// `b` is the battery record for the supply `name` with attributes `a`.
pub open spec fn describes_battery(name: Seq<char>, a: PowerSupplyAttrs, b: BatteryInfo) -> bool {
    &&& b.name@ == name
    &&& b.manufacturer.deep_view() == string_attr(a.manufacturer.deep_view())
    &&& b.model_name.deep_view() == string_attr(a.model_name.deep_view())
    &&& match string_attr(a.technology.deep_view()) {
        Some(t) => chemistry_for(t, b.chemistry),
        None => b.chemistry matches BatteryChemistry::Unknown(s) && s@ == "unknown"@,
    }
    &&& b.status == match string_attr(a.status.deep_view()) {
        Some(s) => status_for(s),
        None => BatteryStatus::Unknown,
    }
    &&& opt_nat(b.design_capacity_uwh) == u64_attr(a.energy_full_design.deep_view())
    &&& opt_nat(b.full_charge_capacity_uwh) == u64_attr(a.energy_full.deep_view())
    &&& opt_nat(b.remaining_capacity_uwh) == u64_attr(a.energy_now.deep_view())
    &&& opt_nat(b.voltage_now_uv) == u64_attr(a.voltage_now.deep_view())
    &&& opt_nat(b.power_now_uw) == battery_power(a)
    &&& opt_nat8(b.capacity_percent) == match u64_attr(a.capacity.deep_view()) {
        Some(v) => Some(v % 256),
        None => None,
    }
    &&& opt_nat32(b.cycle_count) == u32_attr(a.cycle_count.deep_view())
}

/// `l` lists, in order, the records of the entries that are batteries.
pub open spec fn batteries_of(entries: Seq<PowerSupplyEntry>, l: Seq<BatteryInfo>) -> bool
    decreases entries.len(),
{
    if entries.len() == 0 {
        l.len() == 0
    } else {
        let e = entries.last();
        if is_battery(e.attrs) {
            &&& l.len() > 0
            &&& batteries_of(entries.drop_last(), l.drop_last())
            &&& describes_battery(e.name@, e.attrs, l.last())
        } else {
            batteries_of(entries.drop_last(), l)
        }
    }
}

/// Batteries are listed by name alone: `a` comes before `b` exactly when its
/// name comes first; capacities, status and the other fields play no part.
pub proof fn law_batteries_ordered_by_name(a: BatteryInfo, b: BatteryInfo)
    ensures
        key_lt(a.sort_key(), b.sort_key()) == seq_lt(a.name@, b.name@),
{
}

/// No battery of `r` is listed after one whose name comes later.
pub open spec fn listed_by_name(r: Seq<BatteryInfo>) -> bool {
    forall|i: int, j: int|
        0 <= i < j < r.len() ==> !seq_lt((#[trigger] r[j]).name@, (#[trigger] r[i]).name@)
}

impl SortKey for BatteryInfo {
    open spec fn sort_key(&self) -> (int, Seq<char>) {
        (0, self.name@)
    }

    fn key_less(&self, other: &Self) -> (r: bool) {
        str_lt(self.name.as_str(), other.name.as_str())
    }
}

/// The chemistry named by the `technology` attribute.
pub fn classify_chemistry(technology: &str) -> (r: BatteryChemistry)
    ensures
        chemistry_for(technology@, r),
{
    if str_eq(technology, "Li-ion") {
        BatteryChemistry::LithiumIon
    } else if str_eq(technology, "Li-poly") {
        BatteryChemistry::LithiumPolymer
    } else if str_eq(technology, "NiMH") {
        BatteryChemistry::NickelMetalHydride
    } else if str_eq(technology, "NiCd") {
        BatteryChemistry::NickelCadmium
    } else {
        BatteryChemistry::Unknown(to_owned_string(technology))
    }
}

/// The charging state named by the `status` attribute.
pub fn classify_status(status: &str) -> (r: BatteryStatus)
    ensures
        r == status_for(status@),
{
    if str_eq(status, "Charging") {
        BatteryStatus::Charging
    } else if str_eq(status, "Discharging") {
        BatteryStatus::Discharging
    } else if str_eq(status, "Full") {
        BatteryStatus::Full
    } else if str_eq(status, "Not charging") {
        BatteryStatus::NotCharging
    } else {
        BatteryStatus::Unknown
    }
}

/// Power in µW from the `current_now` (µA) and `voltage_now` (µV) attributes.
pub fn compute_power_from_current(attrs: &PowerSupplyAttrs) -> (r: Option<u64>)
    requires
        match (u64_attr(attrs.current_now.deep_view()), u64_attr(attrs.voltage_now.deep_view())) {
            (Some(i), Some(v)) => i * v <= u64::MAX,
            _ => true,
        },
    ensures
        opt_nat(r) == power_from_current(*attrs),
{
    let current_ua = match read_u64_optional(opt_str(&attrs.current_now)) {
        Some(c) => c,
        None => return None,
    };
    let voltage_uv = match read_u64_optional(opt_str(&attrs.voltage_now)) {
        Some(v) => v,
        None => return None,
    };
    Some(current_ua * voltage_uv / 1_000_000)
}

/// The record of the battery `name` with attributes `attrs`.
pub fn collect_battery(name: &str, attrs: &PowerSupplyAttrs) -> (r: Option<BatteryInfo>)
    requires
        power_fits(*attrs),
    ensures
        r matches Some(b) && describes_battery(name@, *attrs, b),
{
    let manufacturer = read_string_optional(opt_str(&attrs.manufacturer));
    let model_name = read_string_optional(opt_str(&attrs.model_name));
    let chemistry = match read_string_optional(opt_str(&attrs.technology)) {
        Some(s) => classify_chemistry(s.as_str()),
        None => BatteryChemistry::Unknown(to_owned_string("unknown")),
    };
    let status = match read_string_optional(opt_str(&attrs.status)) {
        Some(s) => classify_status(s.as_str()),
        None => BatteryStatus::Unknown,
    };
    let design_capacity_uwh = read_u64_optional(opt_str(&attrs.energy_full_design));
    let full_charge_capacity_uwh = read_u64_optional(opt_str(&attrs.energy_full));
    let remaining_capacity_uwh = read_u64_optional(opt_str(&attrs.energy_now));
    let voltage_now_uv = read_u64_optional(opt_str(&attrs.voltage_now));
    let power_now_uw = match read_u64_optional(opt_str(&attrs.power_now)) {
        Some(p) => Some(p),
        None => compute_power_from_current(attrs),
    };
    let capacity_percent = match read_u64_optional(opt_str(&attrs.capacity)) {
        Some(v) => {
            assert(v as u8 == v % 256) by (bit_vector);
            Some(#[verifier::truncate] (v as u8))
        },
        None => None,
    };
    let cycle_count = read_u32_optional(opt_str(&attrs.cycle_count));
    Some(
        BatteryInfo {
            name: to_owned_string(name),
            manufacturer,
            model_name,
            chemistry,
            status,
            design_capacity_uwh,
            full_charge_capacity_uwh,
            remaining_capacity_uwh,
            voltage_now_uv,
            power_now_uw,
            capacity_percent,
            cycle_count,
        },
    )
}

/// The batteries among the power-supply entries, ordered by name.
pub fn collect(entries: &Vec<PowerSupplyEntry>) -> (r: Vec<BatteryInfo>)
    requires
        forall|i: int|
            0 <= i < entries@.len() && is_battery(#[trigger] entries@[i].attrs) ==> power_fits(
                entries@[i].attrs,
            ),
    ensures
        exists|l: Seq<BatteryInfo>| batteries_of(entries@, l) && is_stable_sort_of(r@, l),
        listed_by_name(r@),
{
    let mut batteries: Vec<BatteryInfo> = Vec::new();
    let n: usize = entries.len();
    let mut i: usize = 0;
    assert(entries@.take(0) =~= Seq::<PowerSupplyEntry>::empty());
    while i < n
        invariant
            0 <= i <= n,
            n == entries@.len(),
            batteries_of(entries@.take(i as int), batteries@),
            forall|j: int|
                0 <= j < entries@.len() && is_battery(#[trigger] entries@[j].attrs) ==> power_fits(
                    entries@[j].attrs,
                ),
        decreases n - i,
    {
        let entry = &entries[i];
        assert(entries@.take(i + 1).drop_last() =~= entries@.take(i as int));
        assert(entries@.take(i + 1).last() == entries@[i as int]);
        let supply_type = read_string_optional(opt_str(&entry.attrs.supply_type));
        let battery_type = match &supply_type {
            Some(t) => str_eq(t.as_str(), "Battery"),
            None => false,
        };
        if battery_type {
            let ghost before = batteries@;
            match collect_battery(entry.name.as_str(), &entry.attrs) {
                Some(b) => {
                    batteries.push(b);
                    assert(batteries@.drop_last() =~= before);
                },
                None => {},
            }
        }
        i = i + 1;
    }
    assert(entries@.take(n as int) =~= entries@);
    let ghost l = batteries@;
    let r = stable_sort(batteries);
    assert(batteries_of(entries@, l) && is_stable_sort_of(r@, l));
    proof {
        lemma_stable_sort_is_sorted(r@, l);
        assert forall|i: int, j: int| 0 <= i < j < r@.len() implies !seq_lt(
            (#[trigger] r@[j]).name@,
            (#[trigger] r@[i]).name@,
        ) by {
            law_batteries_ordered_by_name(r@[j], r@[i]);
            assert(!key_lt(r@[j].sort_key(), r@[i].sort_key()));
        }
    }
    r
}

} // verus!
