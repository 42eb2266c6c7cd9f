use sinfo::collectors::storage::{
    collect, collect_ata_scsi, collect_device, collect_nvme, collect_volumes, controller_id,
    detect_interface, is_skipped_device_name, nvme_controller_name, BlockAttrs, BlockEntry,
    DiskMedium, NvmeControllerAttrs, StorageCollector, VolumeInfo,
};
use sinfo::model::storage::{SmartData, StorageInterface};

fn s(v: &str) -> Option<String> {
    Some(v.to_string())
}

fn smart(temp: i32) -> SmartData {
    SmartData {
        temperature_celsius: temp,
        available_spare_pct: 100,
        available_spare_threshold_pct: 10,
        percentage_used: 1,
        data_units_read: 0,
        data_units_written: 0,
        host_read_commands: 0,
        host_write_commands: 0,
        controller_busy_time_minutes: 0,
        power_cycles: 1500,
        power_on_hours: 8760,
        unsafe_shutdowns: 0,
        media_errors: 0,
        num_error_log_entries: 0,
        warning_composite_temp_time_minutes: 0,
        critical_composite_temp_time_minutes: 0,
        critical_warning: 0,
        total_bytes_read: 0,
        total_bytes_written: 0,
    }
}

fn no_ctrl() -> NvmeControllerAttrs {
    NvmeControllerAttrs {
        model: None,
        serial: None,
        firmware_rev: None,
        transport: None,
        cntrltype: None,
        queue_count: None,
        subsysnqn: None,
        namespace_count: 0,
        smart: None,
    }
}

fn attrs(size: &str) -> BlockAttrs {
    BlockAttrs {
        size: s(size),
        rotational: s("1\n"),
        logical_block_size: s("512\n"),
        physical_block_size: s("4096\n"),
        device_model: s("WDC WD40EFRX  \n"),
        device_vendor: s("ATA     \n"),
        device_serial: s("WD-123\n"),
        device_rev: s("0A82\n"),
        device_uevent: s("DRIVER=sd\n"),
        driver: s("sd"),
        sata_smart: Some(smart(35)),
        nvme: no_ctrl(),
    }
}

fn entry(name: &str, partition: bool, a: BlockAttrs) -> BlockEntry {
    BlockEntry {
        name: name.to_string(),
        sysfs_path: format!("/sys/class/block/{name}"),
        is_partition: partition,
        attrs: a,
    }
}

#[test]
fn sata_disk_record() {
    let d = collect_device(&entry("sda", false, attrs("7814037168\n"))).unwrap();
    assert_eq!(d.device_name, "sda");
    assert_eq!(d.sysfs_path, "/sys/class/block/sda");
    assert_eq!(d.capacity_bytes, 7814037168 * 512);
    assert!(d.rotational);
    assert_eq!(d.logical_sector_size, 512);
    assert_eq!(d.physical_sector_size, 4096);
    assert_eq!(d.interface, StorageInterface::SATA);
    assert_eq!(d.model.as_deref(), Some("WDC WD40EFRX"));
    assert_eq!(d.serial_number.as_deref(), Some("WD-123"));
    assert_eq!(d.firmware_version.as_deref(), Some("0A82"));
    assert!(d.nvme.is_none());
    assert_eq!(d.smart, Some(smart(35)));
}

#[test]
fn zero_size_is_not_a_device() {
    assert!(collect_device(&entry("sdb", false, attrs("0"))).is_none());
    let mut a = attrs("1");
    a.size = None;
    assert!(collect_device(&entry("sdb", false, a)).is_none());
}

#[test]
fn defaults_for_missing_queue_attributes() {
    let mut a = attrs("8");
    a.rotational = None;
    a.logical_block_size = None;
    a.physical_block_size = s("junk");
    let d = collect_device(&entry("sdc", false, a)).unwrap();
    assert!(!d.rotational);
    assert_eq!(d.logical_sector_size, 512);
    assert_eq!(d.physical_sector_size, 512);
}

#[test]
fn vendor_when_no_model() {
    let mut a = attrs("8");
    a.device_model = None;
    let (_, model, _, _, _) = collect_ata_scsi("sdd", &a);
    assert_eq!(model.as_deref(), Some("ATA"));
}

#[test]
fn interface_detection() {
    let mut a = attrs("8");
    a.device_uevent = s("DEVTYPE=usb_interface\n");
    assert_eq!(detect_interface("sde", &a), StorageInterface::USB);
    let mut a = attrs("8");
    a.driver = s("virtio_blk");
    assert_eq!(detect_interface("vda", &a), StorageInterface::VirtIO);
    let mut a = attrs("8");
    a.driver = None;
    assert_eq!(detect_interface("mmcblk0", &a), StorageInterface::MMC);
    assert_eq!(detect_interface("sdf", &a), StorageInterface::SATA);
}

#[test]
fn nvme_controller_names() {
    assert_eq!(nvme_controller_name("nvme0n1"), "nvme0");
    assert_eq!(nvme_controller_name("nvme12n3"), "nvme12");
    assert_eq!(nvme_controller_name("nvme1"), "nvme1");
    assert_eq!(nvme_controller_name("nvme"), "nvme");
    assert_eq!(nvme_controller_name("sda"), "sda");
    assert_eq!(nvme_controller_name("xnvme0n1"), "xnvme0n1");
    assert_eq!(controller_id("nvme3"), 3);
    assert_eq!(controller_id("nvme"), 0);
    assert_eq!(controller_id(""), 0);
    assert_eq!(controller_id("sda"), 0);
}

#[test]
fn nvme_drive_record() {
    let mut a = attrs("1953525168");
    a.nvme = NvmeControllerAttrs {
        model: None,
        serial: s("S4EWNX0R\n"),
        firmware_rev: s("2B2QEXM7\n"),
        transport: None,
        cntrltype: s("io\n"),
        queue_count: s("17\n"),
        subsysnqn: s("nqn.2014.08.org.nvmexpress\n"),
        namespace_count: 0,
        smart: Some(smart(41)),
    };
    a.device_model = s("Samsung SSD 970 EVO\n");
    let (iface, model, serial, fw, details) = collect_nvme("nvme0n1", &a);
    assert_eq!(iface, StorageInterface::NVMe);
    assert_eq!(model.as_deref(), Some("Samsung SSD 970 EVO"));
    assert_eq!(serial.as_deref(), Some("S4EWNX0R"));
    assert_eq!(fw.as_deref(), Some("2B2QEXM7"));
    let n = details.unwrap();
    assert_eq!(n.controller_id, 0);
    assert_eq!(n.transport, "pcie");
    assert_eq!(n.namespace_count, 1);
    assert_eq!(n.controller_type.as_deref(), Some("io"));
    assert_eq!(n.queue_count, Some(17));
    assert_eq!(n.smart, Some(smart(41)));
    let (_, _, _, _, details) = collect_nvme("nvme1n1", &a);
    assert_eq!(details.unwrap().controller_id, 1);
    let d = collect_device(&entry("nvme0n1", false, a)).unwrap();
    assert_eq!(d.interface, StorageInterface::NVMe);
    assert_eq!(d.smart, Some(smart(41)));
    assert!(d.nvme.is_some());
}

#[test]
fn skipped_names() {
    for n in ["loop0", "dm-1", "ram0", "zram0", "sr0", "nbd3"] {
        assert!(is_skipped_device_name(n), "{n}");
    }
    for n in ["sda", "nvme0n1", "vda", "mmcblk0"] {
        assert!(!is_skipped_device_name(n), "{n}");
    }
}

#[test]
fn collect_lists_whole_disks_by_name() {
    let entries = vec![
        entry("sdb", false, attrs("16")),
        entry("loop0", false, attrs("16")),
        entry("sda1", true, attrs("16")),
        entry("sda", false, attrs("16")),
        entry("sdc", false, attrs("0")),
        entry("nvme0n1", false, attrs("16")),
    ];
    let names: Vec<String> = collect(&entries).into_iter().map(|d| d.device_name).collect();
    assert_eq!(names, vec!["nvme0n1".to_string(), "sda".to_string(), "sdb".to_string()]);
}

#[test]
fn volumes() {
    let v = vec![
        VolumeInfo {
            mount_point: "C:\\".to_string(),
            volume_name: "OS".to_string(),
            file_system: "NTFS".to_string(),
            medium: DiskMedium::Ssd,
            total_space: 1000,
        },
        VolumeInfo {
            mount_point: "/mnt/data//".to_string(),
            volume_name: String::new(),
            file_system: "ext4".to_string(),
            medium: DiskMedium::Other,
            total_space: 7,
        },
    ];
    let d = collect_volumes(&v);
    assert_eq!(d.len(), 2);
    assert_eq!(d[0].device_name, "C:");
    assert_eq!(d[0].model.as_deref(), Some("OS"));
    assert_eq!(d[0].interface, StorageInterface::NVMe);
    assert!(!d[0].rotational);
    assert_eq!(d[0].capacity_bytes, 1000);
    assert_eq!(d[1].device_name, "/mnt/data");
    assert_eq!(d[1].model.as_deref(), Some("ext4"));
    assert_eq!(d[1].interface, StorageInterface::Unknown("unknown".to_string()));
    assert_eq!(d[1].logical_sector_size, 512);
    assert_eq!(d[1].sysfs_path, "");
}

#[test]
fn storage_collector_name() {
    assert_eq!(StorageCollector.name(), "storage");
}

#[test]
fn test_sata_smart_temperature_mapping() {
    let smart = SmartData {
        temperature_celsius: 42,
        available_spare_pct: 0,
        available_spare_threshold_pct: 0,
        percentage_used: 0,
        data_units_read: 0,
        data_units_written: 0,
        host_read_commands: 0,
        host_write_commands: 0,
        controller_busy_time_minutes: 0,
        power_cycles: 1500,
        power_on_hours: 8760,
        unsafe_shutdowns: 0,
        media_errors: 0,
        num_error_log_entries: 0,
        warning_composite_temp_time_minutes: 0,
        critical_composite_temp_time_minutes: 0,
        critical_warning: 0,
        total_bytes_read: 0,
        total_bytes_written: 0,
    };
    assert_eq!(smart.temperature_celsius, 42);
    assert_eq!(smart.power_cycles, 1500);
    assert_eq!(smart.power_on_hours, 8760);
}
