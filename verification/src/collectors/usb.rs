//! USB devices: from the entries of `/sys/bus/usb/devices` on Linux, and
//! from the rows of the WMI `Win32_PnPEntity` query on Windows.
use vstd::prelude::*;
use crate::model::usb::{UsbDevice, UsbSpeed};
use crate::numparse::{opt_nat16, opt_nat32, parse_radix, parse_unsigned};
use crate::platform::sysfs::{read_string_optional, read_u64_optional, string_attr, u64_attr};
use crate::sorting::{
    is_stable_sort_of, key_lt, lemma_stable_sort_is_sorted, stable_sort, str_lt, SortKey,
};
use crate::text::{
    concat_str, contains_char, decimal, decimal_string, ends_with, find_seq, find_str, has_suffix,
    lemma_split_nonempty, opt_str, seq_lt, split_positions, split_seq, str_eq, to_owned_string,
    trim, trim_str,
};
use crate::numparse::{char_digit_value, is_digit};

verus! {

/// The contents of the attribute files of one USB device directory, each
/// `None` where the file could not be read. Fields are named after the files.
pub struct UsbAttrs {
    pub id_vendor: Option<String>,
    pub id_product: Option<String>,
    pub busnum: Option<String>,
    pub devnum: Option<String>,
    pub devpath: Option<String>,
    pub manufacturer: Option<String>,
    pub product: Option<String>,
    pub serial: Option<String>,
    pub version: Option<String>,
    pub b_device_class: Option<String>,
    pub speed: Option<String>,
    pub b_max_power: Option<String>,
}

/// One entry of the USB device directory: its name and attributes.
pub struct UsbEntry {
    pub name: String,
    pub attrs: UsbAttrs,
}

/// One row of the WMI query for PnP entities with a USB vendor and product id.
pub struct WmiUsbRow {
    pub device_id: Option<String>,
    pub name: Option<String>,
    pub manufacturer: Option<String>,
    pub status: Option<String>,
    pub index: Option<u32>,
}

/// The collector of USB device information.
pub struct UsbCollector;

impl UsbCollector {
    pub fn name(&self) -> (r: &'static str)
        ensures
            r@ == "usb"@,
    {
        "usb"
    }
}

/// `sp` is the speed that the `speed` attribute text `s` (in Mbit/s) stands for.
pub open spec fn speed_for(s: Seq<char>, sp: UsbSpeed) -> bool {
    match sp {
        UsbSpeed::Low => s == "1.5"@,
        UsbSpeed::Full => s == "12"@,
        UsbSpeed::High => s == "480"@,
        UsbSpeed::Super => s == "5000"@,
        UsbSpeed::SuperPlus => s == "10000"@,
        UsbSpeed::SuperPlus2x2 => s == "20000"@,
        UsbSpeed::Unknown(t) => {
            &&& t@ == s
            &&& s != "1.5"@
            &&& s != "12"@
            &&& s != "480"@
            &&& s != "5000"@
            &&& s != "10000"@
            &&& s != "20000"@
        },
    }
}

/// A 16-bit hexadecimal attribute (`idVendor`, `idProduct`).
pub open spec fn hex_u16_attr(contents: Option<Seq<char>>) -> Option<nat> {
    match string_attr(contents) {
        Some(s) => parse_unsigned(s, 16, 0xFFFF),
        None => None,
    }
}

/// The current in mA written as `s` in the form `500mA`.
pub open spec fn max_power_of(s: Seq<char>) -> Option<nat> {
    if has_suffix(s, "mA"@) {
        parse_unsigned(trim(s.subrange(0, s.len() - "mA"@.len())), 10, u32::MAX as nat)
    } else {
        None
    }
}

/// The device entry has the four numbers that identify a device.
pub open spec fn usb_present(a: UsbAttrs) -> bool {
    &&& hex_u16_attr(a.id_vendor.deep_view()) is Some
    &&& hex_u16_attr(a.id_product.deep_view()) is Some
    &&& u64_attr(a.busnum.deep_view()) is Some
    &&& u64_attr(a.devnum.deep_view()) is Some
}

/// `d` is the record of the USB device `name` with attributes `a`.
pub open spec fn describes_usb(name: Seq<char>, a: UsbAttrs, d: UsbDevice) -> bool {
    &&& Some(d.vendor_id as nat) == hex_u16_attr(a.id_vendor.deep_view())
    &&& Some(d.product_id as nat) == hex_u16_attr(a.id_product.deep_view())
    &&& u64_attr(a.busnum.deep_view()) matches Some(b) && d.bus as nat == b % 256
    &&& u64_attr(a.devnum.deep_view()) matches Some(v) && d.devnum as nat == v % 65536
    &&& d.port_path@ == match string_attr(a.devpath.deep_view()) {
        Some(p) => p,
        None => "0"@,
    }
    &&& d.manufacturer.deep_view() == string_attr(a.manufacturer.deep_view())
    &&& d.product.deep_view() == string_attr(a.product.deep_view())
    &&& d.serial_number.deep_view() == string_attr(a.serial.deep_view())
    &&& d.usb_version.deep_view() == match string_attr(a.version.deep_view()) {
        Some(v) => Some(trim(v)),
        None => None,
    }
    &&& d.device_class as nat == match string_attr(a.b_device_class.deep_view()) {
        Some(s) => match parse_unsigned(s, 16, 0xFF) {
            Some(v) => v,
            None => 0,
        },
        None => 0,
    }
    &&& match string_attr(a.speed.deep_view()) {
        Some(s) => speed_for(s, d.speed),
        None => d.speed matches UsbSpeed::Unknown(t) && t@ == "unknown"@,
    }
    &&& opt_nat32(d.max_power_ma) == match string_attr(a.b_max_power.deep_view()) {
        Some(s) => max_power_of(s),
        None => None,
    }
    &&& d.sysfs_id@ == name
}

/// `l` lists, in order, the records of the entries that are devices (not
/// interfaces, whose names hold a `:`) with identifying numbers.
pub open spec fn usb_devices_of(entries: Seq<UsbEntry>, l: Seq<UsbDevice>) -> bool
    decreases entries.len(),
{
    if entries.len() == 0 {
        l.len() == 0
    } else {
        let e = entries.last();
        if !e.name@.contains(':') && usb_present(e.attrs) {
            &&& l.len() > 0
            &&& usb_devices_of(entries.drop_last(), l.drop_last())
            &&& describes_usb(e.name@, e.attrs, l.last())
        } else {
            usb_devices_of(entries.drop_last(), l)
        }
    }
}

/// The end of the run of hexadecimal digits in `s` that starts at `i`.
pub open spec fn hex_run_end(s: Seq<char>, i: int) -> int
    decreases s.len() - i,
    when 0 <= i <= s.len()
{
    if i < s.len() && is_digit(s[i], 16) {
        hex_run_end(s, i + 1)
    } else {
        i
    }
}

/// The 16-bit number written in hexadecimal right after the first `marker` in `s`.
pub open spec fn marked_hex(s: Seq<char>, marker: Seq<char>) -> Option<nat> {
    match find_seq(s, marker) {
        Some(p) => {
            let start = p + marker.len();
            parse_unsigned(s.subrange(start, hex_run_end(s, start)), 16, 0xFFFF)
        },
        None => None,
    }
}

/// The piece of `s` between its first and second `\`, or nothing.
pub open spec fn second_piece(parts: Seq<Seq<char>>) -> Seq<char> {
    if parts.len() > 1 {
        parts[1]
    } else {
        Seq::empty()
    }
}

/// The row has a device id with a vendor and a product id.
pub open spec fn wmi_present(row: WmiUsbRow) -> bool {
    row.device_id matches Some(id) && marked_hex(id@, "VID_"@) is Some && marked_hex(
        id@,
        "PID_"@,
    ) is Some
}

/// `d` is the record of the WMI row `row`.
pub open spec fn describes_wmi(row: WmiUsbRow, d: UsbDevice) -> bool {
    row.device_id matches Some(id) && {
        let parts = split_seq(id@, '\\');
        let idx: nat = match row.index {
            Some(i) => i as nat,
            None => 0,
        };
        &&& Some(d.vendor_id as nat) == marked_hex(id@, "VID_"@)
        &&& Some(d.product_id as nat) == marked_hex(id@, "PID_"@)
        &&& d.bus == 0
        &&& d.port_path@ == decimal(idx)
        &&& d.devnum as nat == idx % 65536
        &&& d.manufacturer.deep_view() == row.manufacturer.deep_view()
        &&& d.product.deep_view() == row.name.deep_view()
        &&& d.serial_number.deep_view() == if parts.len() >= 3 && !parts.last().contains('&') {
            Some(parts.last())
        } else {
            None
        }
        &&& d.usb_version is None
        &&& d.device_class == 0
        &&& d.speed matches UsbSpeed::Unknown(t) && t@ == "N/A"@
        &&& d.max_power_ma is None
        &&& d.sysfs_id@ == parts[0] + "\\"@ + second_piece(parts)
    }
}

/// `l` lists, in order, the records of the rows that identify a device.
pub open spec fn wmi_devices_of(rows: Seq<WmiUsbRow>, l: Seq<UsbDevice>) -> bool
    decreases rows.len(),
{
    if rows.len() == 0 {
        l.len() == 0
    } else {
        let row = rows.last();
        if wmi_present(row) {
            &&& l.len() > 0
            &&& wmi_devices_of(rows.drop_last(), l.drop_last())
            &&& describes_wmi(row, l.last())
        } else {
            wmi_devices_of(rows.drop_last(), l)
        }
    }
}

/// The JSON array text for the output of the WMI query: the output without
/// surrounding whitespace, wrapped in `[` `]` unless it already starts with
/// `[` (a single object is printed bare); `None` for empty output.
pub open spec fn wmi_json_array(stdout: Seq<char>) -> Option<Seq<char>> {
    let t = trim(stdout);
    if t.len() == 0 {
        None
    } else if t[0] == '[' {
        Some(t)
    } else {
        Some("["@ + t + "]"@)
    }
}

/// Devices are listed by bus number, then by port path: of two devices,
/// `a` comes first exactly when its bus number is lower, or the bus numbers
/// are equal and its port path comes first; vendor and product ids, device
/// numbers and the other fields play no part.
pub proof fn law_usb_order_is_bus_then_port(a: UsbDevice, b: UsbDevice)
    ensures
        key_lt(a.sort_key(), b.sort_key()) == (a.bus < b.bus || (a.bus == b.bus && seq_lt(
            a.port_path@,
            b.port_path@,
        ))),
{
}

/// No device of `r` is listed after one on a higher bus, or after one on the
/// same bus with a later port path.
pub open spec fn listed_by_bus_then_port(r: Seq<UsbDevice>) -> bool {
    forall|i: int, j: int|
        0 <= i < j < r.len() ==> (#[trigger] r[i]).bus < (#[trigger] r[j]).bus || (r[i].bus
            == r[j].bus && !seq_lt(r[j].port_path@, r[i].port_path@))
}

proof fn lemma_sorted_devices_by_bus_then_port(r: Seq<UsbDevice>, l: Seq<UsbDevice>)
    requires
        is_stable_sort_of(r, l),
    ensures
        listed_by_bus_then_port(r),
{
    lemma_stable_sort_is_sorted(r, l);
    assert forall|i: int, j: int| 0 <= i < j < r.len() implies (#[trigger] r[i]).bus < (
    #[trigger] r[j]).bus || (r[i].bus == r[j].bus && !seq_lt(r[j].port_path@, r[i].port_path@)) by {
        law_usb_order_is_bus_then_port(r[j], r[i]);
        assert(!key_lt(r[j].sort_key(), r[i].sort_key()));
    }
}

impl SortKey for UsbDevice {
    open spec fn sort_key(&self) -> (int, Seq<char>) {
        (self.bus as int, self.port_path@)
    }

    fn key_less(&self, other: &Self) -> (r: bool) {
        self.bus < other.bus || (self.bus == other.bus && str_lt(
            self.port_path.as_str(),
            other.port_path.as_str(),
        ))
    }
}

/// The speed named by the `speed` attribute (in Mbit/s).
pub fn classify_speed(speed: &str) -> (r: UsbSpeed)
    ensures
        speed_for(speed@, r),
{
    if str_eq(speed, "1.5") {
        UsbSpeed::Low
    } else if str_eq(speed, "12") {
        UsbSpeed::Full
    } else if str_eq(speed, "480") {
        UsbSpeed::High
    } else if str_eq(speed, "5000") {
        UsbSpeed::Super
    } else if str_eq(speed, "10000") {
        UsbSpeed::SuperPlus
    } else if str_eq(speed, "20000") {
        UsbSpeed::SuperPlus2x2
    } else {
        UsbSpeed::Unknown(to_owned_string(speed))
    }
}

/// The current in mA written as `500mA`.
pub fn parse_max_power(s: &str) -> (r: Option<u32>)
    ensures
        opt_nat32(r) == max_power_of(s@),
{
    if !ends_with(s, "mA") {
        return None;
    }
    let n: usize = s.unicode_len();
    proof {
        reveal_strlit("mA");
    }
    assert("mA"@.len() == 2);
    let v = trim_str(s.substring_char(0, n - 2));
    match parse_radix(v, 10, 0xFFFF_FFFF) {
        Some(x) => Some(x as u32),
        None => None,
    }
}

/// A 16-bit hexadecimal attribute.
pub fn read_hex_u16(contents: Option<&str>) -> (r: Option<u16>)
    ensures
        opt_nat16(r) == hex_u16_attr(contents.deep_view()),
{
    match read_string_optional(contents) {
        Some(s) => match parse_radix(s.as_str(), 16, 0xFFFF) {
            Some(v) => Some(v as u16),
            None => None,
        },
        None => None,
    }
}

/// A copy of an optional string.
fn copy_opt(o: &Option<String>) -> (r: Option<String>)
    ensures
        r.deep_view() == o.deep_view(),
{
    match o {
        Some(s) => Some(to_owned_string(s.as_str())),
        None => None,
    }
}

/// The record of the USB device `name` with attributes `attrs`; `None` where
/// one of the identifying numbers is missing.
pub fn collect_device(name: &str, attrs: &UsbAttrs) -> (r: Option<UsbDevice>)
    ensures
        match r {
            Some(d) => usb_present(*attrs) && describes_usb(name@, *attrs, d),
            None => !usb_present(*attrs),
        },
{
    let vendor_id = match read_hex_u16(opt_str(&attrs.id_vendor)) {
        Some(v) => v,
        None => return None,
    };
    let product_id = match read_hex_u16(opt_str(&attrs.id_product)) {
        Some(v) => v,
        None => return None,
    };
    let bus_raw = match read_u64_optional(opt_str(&attrs.busnum)) {
        Some(v) => v,
        None => return None,
    };
    let devnum_raw = match read_u64_optional(opt_str(&attrs.devnum)) {
        Some(v) => v,
        None => return None,
    };
    assert(bus_raw as u8 == bus_raw % 256) by (bit_vector);
    assert(devnum_raw as u16 == devnum_raw % 65536) by (bit_vector);
    let bus: u8 = #[verifier::truncate] (bus_raw as u8);
    let devnum: u16 = #[verifier::truncate] (devnum_raw as u16);
    let port_path = match read_string_optional(opt_str(&attrs.devpath)) {
        Some(p) => p,
        None => to_owned_string("0"),
    };
    let manufacturer = read_string_optional(opt_str(&attrs.manufacturer));
    let product = read_string_optional(opt_str(&attrs.product));
    let serial_number = read_string_optional(opt_str(&attrs.serial));
    let usb_version = match read_string_optional(opt_str(&attrs.version)) {
        Some(v) => Some(to_owned_string(trim_str(v.as_str()))),
        None => None,
    };
    let device_class: u8 = match read_string_optional(opt_str(&attrs.b_device_class)) {
        Some(s) => match parse_radix(s.as_str(), 16, 0xFF) {
            Some(v) => v as u8,
            None => 0,
        },
        None => 0,
    };
    let speed = match read_string_optional(opt_str(&attrs.speed)) {
        Some(s) => classify_speed(s.as_str()),
        None => UsbSpeed::Unknown(to_owned_string("unknown")),
    };
    let max_power_ma = match read_string_optional(opt_str(&attrs.b_max_power)) {
        Some(s) => parse_max_power(s.as_str()),
        None => None,
    };
    Some(
        UsbDevice {
            bus,
            port_path,
            devnum,
            vendor_id,
            product_id,
            manufacturer,
            product,
            serial_number,
            usb_version,
            device_class,
            speed,
            max_power_ma,
            sysfs_id: to_owned_string(name),
        },
    )
}

/// The USB devices among the entries of the device directory, ordered by bus
/// number, then by port path.
pub fn collect(entries: &Vec<UsbEntry>) -> (r: Vec<UsbDevice>)
    ensures
        exists|l: Seq<UsbDevice>| usb_devices_of(entries@, l) && is_stable_sort_of(r@, l),
        listed_by_bus_then_port(r@),
{
    let mut devices: Vec<UsbDevice> = Vec::new();
    let n: usize = entries.len();
    let mut i: usize = 0;
    assert(entries@.take(0) =~= Seq::<UsbEntry>::empty());
    while i < n
        invariant
            0 <= i <= n,
            n == entries@.len(),
            usb_devices_of(entries@.take(i as int), devices@),
        decreases n - i,
    {
        let entry = &entries[i];
        assert(entries@.take(i + 1).drop_last() =~= entries@.take(i as int));
        assert(entries@.take(i + 1).last() == entries@[i as int]);
        if !contains_char(entry.name.as_str(), ':') {
            let ghost before = devices@;
            match collect_device(entry.name.as_str(), &entry.attrs) {
                Some(d) => {
                    devices.push(d);
                    assert(devices@.drop_last() =~= before);
                },
                None => {},
            }
        }
        i = i + 1;
    }
    assert(entries@.take(n as int) =~= entries@);
    let ghost l = devices@;
    let r = stable_sort(devices);
    assert(usb_devices_of(entries@, l) && is_stable_sort_of(r@, l));
    proof {
        lemma_sorted_devices_by_bus_then_port(r@, l);
    }
    r
}

proof fn lemma_hex_run_end_bounds(s: Seq<char>, i: int)
    requires
        0 <= i <= s.len(),
    ensures
        i <= hex_run_end(s, i) <= s.len(),
        forall|k: int| i <= k < hex_run_end(s, i) ==> is_digit(#[trigger] s[k], 16),
        hex_run_end(s, i) < s.len() ==> !is_digit(s[hex_run_end(s, i)], 16),
    decreases s.len() - i,
{
    if i < s.len() && is_digit(s[i], 16) {
        lemma_hex_run_end_bounds(s, i + 1);
    }
}

/// The 16-bit number written in hexadecimal right after the first `marker` in `s`.
fn extract_marked_hex(s: &str, marker: &str) -> (r: Option<u16>)
    ensures
        opt_nat16(r) == marked_hex(s@, marker@),
{
    let p = match find_str(s, marker) {
        Some(p) => p,
        None => return None,
    };
    let n: usize = s.unicode_len();
    let m: usize = marker.unicode_len();
    let start: usize = p + m;
    let mut end: usize = start;
    while end < n && char_digit_value(s.get_char(end)) < 16
        invariant
            start <= end <= n,
            n == s@.len(),
            hex_run_end(s@, start as int) == hex_run_end(s@, end as int),
        decreases n - end,
    {
        end = end + 1;
    }
    proof {
        lemma_hex_run_end_bounds(s@, end as int);
    }
    match parse_radix(s.substring_char(start, end), 16, 0xFFFF) {
        Some(v) => Some(v as u16),
        None => None,
    }
}

/// The vendor id written after `VID_` in a PnP device id.
pub fn extract_vid(s: &str) -> (r: Option<u16>)
    ensures
        opt_nat16(r) == marked_hex(s@, "VID_"@),
{
    extract_marked_hex(s, "VID_")
}

/// The product id written after `PID_` in a PnP device id.
pub fn extract_pid(s: &str) -> (r: Option<u16>)
    ensures
        opt_nat16(r) == marked_hex(s@, "PID_"@),
{
    extract_marked_hex(s, "PID_")
}

/// The record of a WMI row such as one whose device id reads
/// `USB\VID_046D&PID_C52B\5&2F4E3A01&0&2`; `None` where the row has no
/// device id or no vendor or product id in it.
pub fn wmi_row_to_usb(row: &WmiUsbRow) -> (r: Option<UsbDevice>)
    ensures
        match r {
            Some(d) => wmi_present(*row) && describes_wmi(*row, d),
            None => !wmi_present(*row),
        },
{
    let device_id: &str = match &row.device_id {
        Some(id) => id.as_str(),
        None => return None,
    };
    let vendor_id = match extract_vid(device_id) {
        Some(v) => v,
        None => return None,
    };
    let product_id = match extract_pid(device_id) {
        Some(v) => v,
        None => return None,
    };
    let parts = split_positions(device_id, '\\');
    let ghost pieces = split_seq(device_id@, '\\');
    proof {
        lemma_split_nonempty(device_id@, '\\');
    }
    let count: usize = parts.len();
    let serial_number = if count >= 3 {
        let last = device_id.substring_char(parts[count - 1].0, parts[count - 1].1);
        assert(last@ == pieces.last());
        if contains_char(last, '&') {
            None
        } else {
            Some(to_owned_string(last))
        }
    } else {
        None
    };
    let prefix = device_id.substring_char(parts[0].0, parts[0].1);
    let second: &str = if count > 1 {
        device_id.substring_char(parts[1].0, parts[1].1)
    } else {
        ""
    };
    proof {
        reveal_strlit("");
        if count <= 1 {
            assert(second@ =~= second_piece(pieces));
        }
    }
    let head = concat_str(prefix, "\\");
    let sysfs_id = concat_str(head.as_str(), second);
    let idx: u32 = match row.index {
        Some(i) => i,
        None => 0,
    };
    assert(idx as u16 == idx % 65536) by (bit_vector);
    Some(
        UsbDevice {
            bus: 0,
            port_path: decimal_string(idx as u64),
            devnum: #[verifier::truncate] (idx as u16),
            vendor_id,
            product_id,
            manufacturer: copy_opt(&row.manufacturer),
            product: copy_opt(&row.name),
            serial_number,
            usb_version: None,
            device_class: 0,
            speed: UsbSpeed::Unknown(to_owned_string("N/A")),
            max_power_ma: None,
            sysfs_id,
        },
    )
}

/// The USB devices among the rows of the WMI query, ordered by bus number,
/// then by port path.
pub fn devices_from_wmi_rows(rows: &Vec<WmiUsbRow>) -> (r: Vec<UsbDevice>)
    ensures
        exists|l: Seq<UsbDevice>| wmi_devices_of(rows@, l) && is_stable_sort_of(r@, l),
        listed_by_bus_then_port(r@),
{
    let mut devices: Vec<UsbDevice> = Vec::new();
    let n: usize = rows.len();
    let mut i: usize = 0;
    assert(rows@.take(0) =~= Seq::<WmiUsbRow>::empty());
    while i < n
        invariant
            0 <= i <= n,
            n == rows@.len(),
            wmi_devices_of(rows@.take(i as int), devices@),
        decreases n - i,
    {
        assert(rows@.take(i + 1).drop_last() =~= rows@.take(i as int));
        assert(rows@.take(i + 1).last() == rows@[i as int]);
        let ghost before = devices@;
        match wmi_row_to_usb(&rows[i]) {
            Some(d) => {
                devices.push(d);
                assert(devices@.drop_last() =~= before);
            },
            None => {},
        }
        i = i + 1;
    }
    assert(rows@.take(n as int) =~= rows@);
    let ghost l = devices@;
    let r = stable_sort(devices);
    assert(wmi_devices_of(rows@, l) && is_stable_sort_of(r@, l));
    proof {
        lemma_sorted_devices_by_bus_then_port(r@, l);
    }
    r
}

/// The JSON array text for the output of the WMI query; `None` where the
/// query printed nothing (no devices).
pub fn powershell_json_array(stdout: &str) -> (r: Option<String>)
    ensures
        r.deep_view() == wmi_json_array(stdout@),
{
    let t = trim_str(stdout);
    if t.unicode_len() == 0 {
        return None;
    }
    if t.get_char(0) == '[' {
        Some(to_owned_string(t))
    } else {
        let open = concat_str("[", t);
        Some(concat_str(open.as_str(), "]"))
    }
}

} // verus!
