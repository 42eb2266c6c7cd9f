//! Block storage devices: from the entries of `/sys/class/block` on Linux,
//! and from the mounted volumes elsewhere.
use vstd::prelude::*;
use crate::model::storage::{NvmeDetails, SmartData, StorageDevice, StorageInterface};
use crate::numparse::{opt_nat32, parse_radix, parse_unsigned};
use crate::platform::sysfs::{
    read_string_optional, read_u32_optional, read_u64_optional, string_attr, u32_attr, u64_attr,
};
use crate::sorting::{
    is_stable_sort_of, key_lt, lemma_stable_sort_is_sorted, stable_sort, str_lt, SortKey,
};
use crate::text::{
    concat_str, contains_seq, contains_str, has_prefix, lemma_split_nonempty, opt_str, seq_lt,
    split_positions, split_seq, starts_with, to_owned_string, trim, trim_str,
};

verus! {

/// What was read for the NVMe controller of a drive: the attribute files
/// under `/sys/class/nvme/<controller>` (each `None` where the file could not
/// be read, fields named after the files), how many namespace entries the
/// controller directory lists, and its SMART log where it could be read.
pub struct NvmeControllerAttrs {
    pub model: Option<String>,
    pub serial: Option<String>,
    pub firmware_rev: Option<String>,
    pub transport: Option<String>,
    pub cntrltype: Option<String>,
    pub queue_count: Option<String>,
    pub subsysnqn: Option<String>,
    pub namespace_count: usize,
    pub smart: Option<SmartData>,
}

/// What was read for one block device: the contents of its attribute files
/// (`size`, `queue/…` and `device/…`, each `None` where the file could not
/// be read), the name of its driver (the last component of the
/// `device/driver` link), and SMART data where it could be read.
pub struct BlockAttrs {
    pub size: Option<String>,
    pub rotational: Option<String>,
    pub logical_block_size: Option<String>,
    pub physical_block_size: Option<String>,
    pub device_model: Option<String>,
    pub device_vendor: Option<String>,
    pub device_serial: Option<String>,
    pub device_rev: Option<String>,
    pub device_uevent: Option<String>,
    pub driver: Option<String>,
    pub sata_smart: Option<SmartData>,
    pub nvme: NvmeControllerAttrs,
}

/// One entry of the block class: its name, its sysfs path, whether it is a
/// partition (it has a `partition` attribute), and its attributes.
pub struct BlockEntry {
    pub name: String,
    pub sysfs_path: String,
    pub is_partition: bool,
    pub attrs: BlockAttrs,
}

/// The kind of medium of a mounted volume.
#[derive(Debug, Clone, Copy, PartialEq, Eq)]
pub enum DiskMedium {
    Hdd,
    Ssd,
    Other,
}

/// What the system reports of one mounted volume.
pub struct VolumeInfo {
    pub mount_point: String,
    pub volume_name: String,
    pub file_system: String,
    pub medium: DiskMedium,
    pub total_space: u64,
}

/// The collector of storage device information.
pub struct StorageCollector;

impl StorageCollector {
    pub fn name(&self) -> (r: &'static str)
        ensures
            r@ == "storage"@,
    {
        "storage"
    }
}

/// Names of virtual and optical block devices, which are not listed.
pub open spec fn is_skipped_name(name: Seq<char>) -> bool {
    ||| has_prefix(name, "loop"@)
    ||| has_prefix(name, "dm-"@)
    ||| has_prefix(name, "ram"@)
    ||| has_prefix(name, "zram"@)
    ||| has_prefix(name, "sr"@)
    ||| has_prefix(name, "nbd"@)
}

/// The number of 512-byte sectors of the device (0 where unknown).
pub open spec fn size_sectors(a: BlockAttrs) -> nat {
    match u64_attr(a.size.deep_view()) {
        Some(v) => v,
        None => 0,
    }
}

/// The controller of an NVMe namespace: `nvme` and the controller number,
/// that is the name up to the `n` that follows the number (`nvme0n1` gives
/// `nvme0`, `nvme12n3` gives `nvme12`). A name without the `nvme` prefix
/// names no namespace and is left whole.
pub open spec fn controller_name(name: Seq<char>) -> Seq<char> {
    if has_prefix(name, "nvme"@) {
        "nvme"@ + split_seq(name.skip("nvme"@.len() as int), 'n')[0]
    } else {
        name
    }
}

/// The number in a controller name `nvme<k>`; 0 where there is none.
pub open spec fn controller_id_of(ctrl: Seq<char>) -> nat {
    if has_prefix(ctrl, "nvme"@) {
        match parse_unsigned(ctrl.skip("nvme"@.len() as int), 10, u32::MAX as nat) {
            Some(v) => v,
            None => 0,
        }
    } else {
        0
    }
}

/// The model of an NVMe drive: the controller's, else the block device's.
pub open spec fn nvme_model(a: BlockAttrs) -> Option<Seq<char>> {
    match string_attr(a.nvme.model.deep_view()) {
        Some(m) => Some(m),
        None => string_attr(a.device_model.deep_view()),
    }
}

/// The model of an ATA or SCSI drive: its `model`, else its `vendor`.
pub open spec fn ata_model(a: BlockAttrs) -> Option<Seq<char>> {
    match string_attr(a.device_model.deep_view()) {
        Some(m) => Some(m),
        None => match string_attr(a.device_vendor.deep_view()) {
            Some(v) => Some(trim(v)),
            None => None,
        },
    }
}

/// How a non-NVMe block device is attached, judged from its `uevent`, its
/// driver and its name.
pub open spec fn detected_interface(name: Seq<char>, a: BlockAttrs) -> StorageInterface {
    let uevent = match string_attr(a.device_uevent.deep_view()) {
        Some(u) => u,
        None => Seq::empty(),
    };
    if contains_seq(uevent, "usb"@) {
        StorageInterface::USB
    } else if a.driver matches Some(d) && contains_seq(d@, "virtio"@) {
        StorageInterface::VirtIO
    } else if has_prefix(name, "mmcblk"@) {
        StorageInterface::MMC
    } else {
        StorageInterface::SATA
    }
}

/// `n` is the controller record of the NVMe controller `ctrl` with attributes `a`.
pub open spec fn describes_nvme(ctrl: Seq<char>, a: NvmeControllerAttrs, n: NvmeDetails) -> bool {
    &&& n.controller_id as nat == controller_id_of(ctrl)
    &&& n.nvme_version is None
    &&& n.transport@ == match string_attr(a.transport.deep_view()) {
        Some(t) => t,
        None => "pcie"@,
    }
    &&& n.namespace_count as nat == if (a.namespace_count as nat) % 0x1_0000_0000 == 0 {
        1
    } else {
        (a.namespace_count as nat) % 0x1_0000_0000
    }
    &&& n.controller_type.deep_view() == string_attr(a.cntrltype.deep_view())
    &&& opt_nat32(n.queue_count) == u32_attr(a.queue_count.deep_view())
    &&& n.subsystem_nqn.deep_view() == string_attr(a.subsysnqn.deep_view())
    &&& n.smart == a.smart
}

/// The entry is listed: a real, whole, non-empty disk.
pub open spec fn is_listed(e: BlockEntry) -> bool {
    &&& !is_skipped_name(e.name@)
    &&& !e.is_partition
    &&& size_sectors(e.attrs) != 0
}

/// The capacity of the device in bytes fits in 64 bits (the multiplication
/// overflows otherwise).
pub open spec fn capacity_fits(a: BlockAttrs) -> bool {
    size_sectors(a) * 512 <= u64::MAX
}

/// `d` is the record of the block device of entry `e`.
pub open spec fn describes_storage(e: BlockEntry, d: StorageDevice) -> bool {
    let a = e.attrs;
    &&& d.device_name@ == e.name@
    &&& d.sysfs_path@ == e.sysfs_path@
    &&& d.capacity_bytes as nat == size_sectors(a) * 512
    &&& d.rotational == (u64_attr(a.rotational.deep_view()) == Some(1nat))
    &&& d.logical_sector_size as nat == match u32_attr(a.logical_block_size.deep_view()) {
        Some(v) => v,
        None => 512,
    }
    &&& d.physical_sector_size as nat == match u32_attr(a.physical_block_size.deep_view()) {
        Some(v) => v,
        None => 512,
    }
    &&& if has_prefix(e.name@, "nvme"@) {
        &&& d.interface == StorageInterface::NVMe
        &&& d.model.deep_view() == nvme_model(a)
        &&& d.serial_number.deep_view() == string_attr(a.nvme.serial.deep_view())
        &&& d.firmware_version.deep_view() == string_attr(a.nvme.firmware_rev.deep_view())
        &&& d.nvme matches Some(n) && describes_nvme(controller_name(e.name@), a.nvme, n)
        &&& d.smart == a.nvme.smart
    } else {
        &&& d.interface == detected_interface(e.name@, a)
        &&& d.model.deep_view() == ata_model(a)
        &&& d.serial_number.deep_view() == string_attr(a.device_serial.deep_view())
        &&& d.firmware_version.deep_view() == string_attr(a.device_rev.deep_view())
        &&& d.nvme is None
        &&& d.smart == a.sata_smart
    }
}

/// `l` lists, in order, the records of the listed entries.
pub open spec fn storage_devices_of(entries: Seq<BlockEntry>, l: Seq<StorageDevice>) -> bool
    decreases entries.len(),
{
    if entries.len() == 0 {
        l.len() == 0
    } else {
        let e = entries.last();
        if is_listed(e) {
            &&& l.len() > 0
            &&& storage_devices_of(entries.drop_last(), l.drop_last())
            &&& describes_storage(e, l.last())
        } else {
            storage_devices_of(entries.drop_last(), l)
        }
    }
}

/// `s` without the `\` and `/` characters at its end.
pub open spec fn strip_trailing_separators(s: Seq<char>) -> Seq<char>
    decreases s.len(),
{
    if s.len() > 0 && (s.last() == '\\' || s.last() == '/') {
        strip_trailing_separators(s.drop_last())
    } else {
        s
    }
}

/// `d` is the record of the mounted volume `v`.
pub open spec fn describes_volume(v: VolumeInfo, d: StorageDevice) -> bool {
    &&& d.device_name@ == strip_trailing_separators(v.mount_point@)
    &&& d.sysfs_path@ == Seq::<char>::empty()
    &&& d.model.deep_view() == Some(
        if v.volume_name@.len() == 0 {
            v.file_system@
        } else {
            v.volume_name@
        },
    )
    &&& d.serial_number is None
    &&& d.firmware_version is None
    &&& d.capacity_bytes == v.total_space
    &&& match v.medium {
        DiskMedium::Ssd => d.interface == StorageInterface::NVMe,
        DiskMedium::Hdd => d.interface == StorageInterface::SATA,
        DiskMedium::Other => d.interface matches StorageInterface::Unknown(t) && t@ == "unknown"@,
    }
    &&& d.rotational == (v.medium == DiskMedium::Hdd)
    &&& d.logical_sector_size == 512
    &&& d.physical_sector_size == 512
    &&& d.nvme is None
    &&& d.smart is None
}

/// A block device name is skipped exactly when it starts with `loop`, `dm-`,
/// `ram`, `zram`, `sr` or `nbd`; no other name is.
pub proof fn law_skipped_names_are_the_virtual_prefixes(name: Seq<char>)
    ensures
        is_skipped_name(name) == (has_prefix(name, "loop"@) || has_prefix(name, "dm-"@)
            || has_prefix(name, "ram"@) || has_prefix(name, "zram"@) || has_prefix(name, "sr"@)
            || has_prefix(name, "nbd"@)),
{
}

/// The names of real disks (`sd*`, `hd*`, `vd*`, `nvme*`, `mmcblk*` and the
/// software RAID arrays `md*`) are never skipped.
pub proof fn law_disk_names_are_not_skipped(name: Seq<char>)
    requires
        has_prefix(name, "sd"@) || has_prefix(name, "hd"@) || has_prefix(name, "vd"@)
            || has_prefix(name, "nvme"@) || has_prefix(name, "mmcblk"@) || has_prefix(name, "md"@),
    ensures
        !is_skipped_name(name),
{
    reveal_strlit("sd");
    reveal_strlit("hd");
    reveal_strlit("vd");
    reveal_strlit("nvme");
    reveal_strlit("mmcblk");
    reveal_strlit("md");
    reveal_strlit("loop");
    reveal_strlit("dm-");
    reveal_strlit("ram");
    reveal_strlit("zram");
    reveal_strlit("sr");
    reveal_strlit("nbd");
    assert("sd"@.len() == 2 && "hd"@.len() == 2 && "vd"@.len() == 2 && "md"@.len() == 2);
    assert("nvme"@.len() == 4 && "mmcblk"@.len() == 6);
    assert("loop"@.len() == 4 && "dm-"@.len() == 3 && "ram"@.len() == 3);
    assert("zram"@.len() == 4 && "sr"@.len() == 2 && "nbd"@.len() == 3);
    assert(name.len() >= 2);
    let c0 = name[0];
    let c1 = name[1];
    assert forall|p: Seq<char>| #[trigger] has_prefix(name, p) && p.len() >= 2 implies p[0] == c0
        && p[1] == c1 by {
        assert(name.subrange(0, p.len() as int)[0] == name[0]);
        assert(name.subrange(0, p.len() as int)[1] == name[1]);
    }
}

/// No device of `r` is listed after one whose name comes later.
pub open spec fn listed_by_device_name(r: Seq<StorageDevice>) -> bool {
    forall|i: int, j: int|
        0 <= i < j < r.len() ==> !seq_lt(
            (#[trigger] r[j]).device_name@,
            (#[trigger] r[i]).device_name@,
        )
}

/// Devices are listed by name alone: `a` comes before `b` exactly when its
/// name comes first.
pub proof fn law_storage_ordered_by_name(a: StorageDevice, b: StorageDevice)
    ensures
        key_lt(a.sort_key(), b.sort_key()) == seq_lt(a.device_name@, b.device_name@),
{
}

impl SortKey for StorageDevice {
    open spec fn sort_key(&self) -> (int, Seq<char>) {
        (0, self.device_name@)
    }

    fn key_less(&self, other: &Self) -> (r: bool) {
        str_lt(self.device_name.as_str(), other.device_name.as_str())
    }
}

/// Is `name` that of a virtual or optical block device?
pub fn is_skipped_device_name(name: &str) -> (r: bool)
    ensures
        r == is_skipped_name(name@),
        r == (has_prefix(name@, "loop"@) || has_prefix(name@, "dm-"@) || has_prefix(name@, "ram"@)
            || has_prefix(name@, "zram"@) || has_prefix(name@, "sr"@) || has_prefix(name@, "nbd"@)),
{
    starts_with(name, "loop") || starts_with(name, "dm-") || starts_with(name, "ram")
        || starts_with(name, "zram") || starts_with(name, "sr") || starts_with(name, "nbd")
}

/// The controller of the NVMe namespace `name` (`nvme0n1` gives `nvme0`).
pub fn nvme_controller_name(name: &str) -> (r: String)
    ensures
        r@ == controller_name(name@),
{
    if !starts_with(name, "nvme") {
        return to_owned_string(name);
    }
    proof {
        reveal_strlit("nvme");
    }
    assert("nvme"@.len() == 4);
    let n: usize = name.unicode_len();
    let rest = name.substring_char(4, n);
    assert(rest@ =~= name@.skip(4));
    let parts = split_positions(rest, 'n');
    proof {
        lemma_split_nonempty(rest@, 'n');
    }
    concat_str("nvme", rest.substring_char(parts[0].0, parts[0].1))
}

/// The number in a controller name `nvme<k>`; 0 where there is none.
pub fn controller_id(ctrl: &str) -> (r: u32)
    ensures
        r as nat == controller_id_of(ctrl@),
{
    if !starts_with(ctrl, "nvme") {
        return 0;
    }
    proof {
        reveal_strlit("nvme");
    }
    assert("nvme"@.len() == 4);
    let n: usize = ctrl.unicode_len();
    let digits = ctrl.substring_char(4, n);
    assert(digits@ =~= ctrl@.skip(4));
    match parse_radix(digits, 10, 0xFFFF_FFFF) {
        Some(v) => v as u32,
        None => 0,
    }
}

/// The interface, model, serial, firmware and controller record of the NVMe drive `name`.
pub fn collect_nvme(name: &str, attrs: &BlockAttrs) -> (r: (
    StorageInterface,
    Option<String>,
    Option<String>,
    Option<String>,
    Option<NvmeDetails>,
))
    ensures
        r.0 == StorageInterface::NVMe,
        r.1.deep_view() == nvme_model(*attrs),
        r.2.deep_view() == string_attr(attrs.nvme.serial.deep_view()),
        r.3.deep_view() == string_attr(attrs.nvme.firmware_rev.deep_view()),
        r.4 matches Some(n) && describes_nvme(controller_name(name@), attrs.nvme, n),
{
    let ctrl = nvme_controller_name(name);
    let c = &attrs.nvme;
    let model = match read_string_optional(opt_str(&c.model)) {
        Some(m) => Some(m),
        None => read_string_optional(opt_str(&attrs.device_model)),
    };
    let serial = read_string_optional(opt_str(&c.serial));
    let firmware = read_string_optional(opt_str(&c.firmware_rev));
    let transport = match read_string_optional(opt_str(&c.transport)) {
        Some(t) => t,
        None => to_owned_string("pcie"),
    };
    let controller_type = read_string_optional(opt_str(&c.cntrltype));
    let queue_count = read_u32_optional(opt_str(&c.queue_count));
    let subsystem_nqn = read_string_optional(opt_str(&c.subsysnqn));
    let count: u64 = c.namespace_count as u64;
    assert(count as u32 == count % 0x1_0000_0000) by (bit_vector);
    let count32: u32 = #[verifier::truncate] (count as u32);
    let namespace_count: u32 = if count32 == 0 {
        1
    } else {
        count32
    };
    let details = NvmeDetails {
        controller_id: controller_id(ctrl.as_str()),
        nvme_version: None,
        transport,
        namespace_count,
        controller_type,
        queue_count,
        subsystem_nqn,
        smart: c.smart,
    };
    (StorageInterface::NVMe, model, serial, firmware, Some(details))
}

/// How the non-NVMe block device `name` is attached.
pub fn detect_interface(name: &str, attrs: &BlockAttrs) -> (r: StorageInterface)
    ensures
        r == detected_interface(name@, *attrs),
{
    let uevent = match read_string_optional(opt_str(&attrs.device_uevent)) {
        Some(u) => u,
        None => String::new(),
    };
    if contains_str(uevent.as_str(), "usb") {
        return StorageInterface::USB;
    }
    match &attrs.driver {
        Some(d) => {
            if contains_str(d.as_str(), "virtio") {
                return StorageInterface::VirtIO;
            }
        },
        None => {},
    }
    if starts_with(name, "mmcblk") {
        return StorageInterface::MMC;
    }
    StorageInterface::SATA
}

/// The interface, model, serial, firmware and SMART data of the ATA or SCSI drive `name`.
pub fn collect_ata_scsi(name: &str, attrs: &BlockAttrs) -> (r: (
    StorageInterface,
    Option<String>,
    Option<String>,
    Option<String>,
    Option<SmartData>,
))
    ensures
        r.0 == detected_interface(name@, *attrs),
        r.1.deep_view() == ata_model(*attrs),
        r.2.deep_view() == string_attr(attrs.device_serial.deep_view()),
        r.3.deep_view() == string_attr(attrs.device_rev.deep_view()),
        r.4 == attrs.sata_smart,
{
    let model = match read_string_optional(opt_str(&attrs.device_model)) {
        Some(m) => Some(m),
        None => match read_string_optional(opt_str(&attrs.device_vendor)) {
            Some(v) => Some(to_owned_string(trim_str(v.as_str()))),
            None => None,
        },
    };
    let serial = read_string_optional(opt_str(&attrs.device_serial));
    let firmware = read_string_optional(opt_str(&attrs.device_rev));
    let interface = detect_interface(name, attrs);
    (interface, model, serial, firmware, attrs.sata_smart)
}

/// The record of the block device of `entry`; `None` for a device of size 0.
pub fn collect_device(entry: &BlockEntry) -> (r: Option<StorageDevice>)
    requires
        capacity_fits(entry.attrs),
    ensures
        match r {
            Some(d) => size_sectors(entry.attrs) != 0 && describes_storage(*entry, d),
            None => size_sectors(entry.attrs) == 0,
        },
{
    let attrs = &entry.attrs;
    let name = entry.name.as_str();
    let size_sectors: u64 = match read_u64_optional(opt_str(&attrs.size)) {
        Some(v) => v,
        None => 0,
    };
    if size_sectors == 0 {
        return None;
    }
    let capacity_bytes: u64 = size_sectors * 512;
    let rotational = match read_u64_optional(opt_str(&attrs.rotational)) {
        Some(v) => v == 1,
        None => false,
    };
    let logical_sector_size: u32 = match read_u32_optional(opt_str(&attrs.logical_block_size)) {
        Some(v) => v,
        None => 512,
    };
    let physical_sector_size: u32 = match read_u32_optional(opt_str(&attrs.physical_block_size)) {
        Some(v) => v,
        None => 512,
    };
    if starts_with(name, "nvme") {
        let (interface, model, serial_number, firmware_version, nvme) = collect_nvme(name, attrs);
        let smart = match &nvme {
            Some(n) => n.smart,
            None => None,
        };
        Some(
            StorageDevice {
                device_name: to_owned_string(name),
                sysfs_path: to_owned_string(entry.sysfs_path.as_str()),
                model,
                serial_number,
                firmware_version,
                capacity_bytes,
                interface,
                rotational,
                logical_sector_size,
                physical_sector_size,
                nvme,
                smart,
            },
        )
    } else {
        let (interface, model, serial_number, firmware_version, smart) = collect_ata_scsi(
            name,
            attrs,
        );
        Some(
            StorageDevice {
                device_name: to_owned_string(name),
                sysfs_path: to_owned_string(entry.sysfs_path.as_str()),
                model,
                serial_number,
                firmware_version,
                capacity_bytes,
                interface,
                rotational,
                logical_sector_size,
                physical_sector_size,
                nvme: None,
                smart,
            },
        )
    }
}

/// The whole, non-virtual block devices among the entries, ordered by name.
pub fn collect(entries: &Vec<BlockEntry>) -> (r: Vec<StorageDevice>)
    requires
        forall|i: int|
            0 <= i < entries@.len() && !is_skipped_name(#[trigger] entries@[i].name@)
                && !entries@[i].is_partition ==> capacity_fits(entries@[i].attrs),
    ensures
        exists|l: Seq<StorageDevice>| storage_devices_of(entries@, l) && is_stable_sort_of(r@, l),
        listed_by_device_name(r@),
{
    let mut devices: Vec<StorageDevice> = Vec::new();
    let n: usize = entries.len();
    let mut i: usize = 0;
    assert(entries@.take(0) =~= Seq::<BlockEntry>::empty());
    while i < n
        invariant
            0 <= i <= n,
            n == entries@.len(),
            storage_devices_of(entries@.take(i as int), devices@),
            forall|j: int|
                0 <= j < entries@.len() && !is_skipped_name(#[trigger] entries@[j].name@)
                    && !entries@[j].is_partition ==> capacity_fits(entries@[j].attrs),
        decreases n - i,
    {
        let entry = &entries[i];
        assert(entries@.take(i + 1).drop_last() =~= entries@.take(i as int));
        assert(entries@.take(i + 1).last() == entries@[i as int]);
        if !is_skipped_device_name(entry.name.as_str()) && !entry.is_partition {
            let ghost before = devices@;
            match collect_device(entry) {
                Some(d) => {
                    devices.push(d);
                    assert(devices@.drop_last() =~= before);
                },
                None => {},
            }
        }
        i = i + 1;
    }
    assert(entries@.take(n as int) =~= entries@);
    let ghost l = devices@;
    let r = stable_sort(devices);
    assert(storage_devices_of(entries@, l) && is_stable_sort_of(r@, l));
    proof {
        lemma_stable_sort_is_sorted(r@, l);
        assert forall|i: int, j: int| 0 <= i < j < r@.len() implies !seq_lt(
            (#[trigger] r@[j]).device_name@,
            (#[trigger] r@[i]).device_name@,
        ) by {
            law_storage_ordered_by_name(r@[j], r@[i]);
            assert(!key_lt(r@[j].sort_key(), r@[i].sort_key()));
        }
    }
    r
}

/// `s` without the `\` and `/` characters at its end (`trim_end_matches`).
pub fn strip_separators_end(s: &str) -> (r: &str)
    ensures
        r@ == strip_trailing_separators(s@),
{
    let n: usize = s.unicode_len();
    let mut j: usize = n;
    assert(s@.subrange(0, n as int) =~= s@);
    while j > 0 && (s.get_char(j - 1) == '\\' || s.get_char(j - 1) == '/')
        invariant
            j <= n,
            n == s@.len(),
            strip_trailing_separators(s@) == strip_trailing_separators(s@.subrange(0, j as int)),
        decreases j,
    {
        assert(s@.subrange(0, j as int).drop_last() =~= s@.subrange(0, j - 1));
        j = j - 1;
    }
    s.substring_char(0, j)
}

/// The record of a mounted volume: named by its mount point without trailing
/// separators, with the volume label (else the file system) as model.
pub fn storage_device_from_volume(v: &VolumeInfo) -> (r: StorageDevice)
    ensures
        describes_volume(*v, r),
{
    let mount = to_owned_string(strip_separators_end(v.mount_point.as_str()));
    let model = if v.volume_name.as_str().unicode_len() == 0 {
        to_owned_string(v.file_system.as_str())
    } else {
        to_owned_string(v.volume_name.as_str())
    };
    let rotational = match v.medium {
        DiskMedium::Hdd => true,
        _ => false,
    };
    let interface = match v.medium {
        DiskMedium::Ssd => StorageInterface::NVMe,
        DiskMedium::Hdd => StorageInterface::SATA,
        DiskMedium::Other => StorageInterface::Unknown(to_owned_string("unknown")),
    };
    StorageDevice {
        device_name: mount,
        sysfs_path: String::new(),
        model: Some(model),
        serial_number: None,
        firmware_version: None,
        capacity_bytes: v.total_space,
        interface,
        rotational,
        logical_sector_size: 512,
        physical_sector_size: 512,
        nvme: None,
        smart: None,
    }
}

/// The records of the mounted volumes, in the order given.
pub fn collect_volumes(volumes: &Vec<VolumeInfo>) -> (r: Vec<StorageDevice>)
    ensures
        r@.len() == volumes@.len(),
        forall|i: int| 0 <= i < r@.len() ==> describes_volume(volumes@[i], #[trigger] r@[i]),
{
    let mut devices: Vec<StorageDevice> = Vec::new();
    let n: usize = volumes.len();
    let mut i: usize = 0;
    while i < n
        invariant
            0 <= i <= n,
            n == volumes@.len(),
            devices@.len() == i,
            forall|k: int| 0 <= k < i ==> describes_volume(volumes@[k], #[trigger] devices@[k]),
        decreases n - i,
    {
        devices.push(storage_device_from_volume(&volumes[i]));
        i = i + 1;
    }
    devices
}

} // verus!
