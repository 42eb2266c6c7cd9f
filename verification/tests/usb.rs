use sinfo::collectors::usb::{
    classify_speed, collect, collect_device, devices_from_wmi_rows, extract_pid, extract_vid,
    parse_max_power, powershell_json_array, read_hex_u16, wmi_row_to_usb, UsbAttrs, UsbCollector,
    UsbEntry, WmiUsbRow,
};
use sinfo::model::usb::UsbSpeed;

#[test]
fn test_classify_speed() {
    assert_eq!(classify_speed("480"), UsbSpeed::High);
    assert_eq!(classify_speed("5000"), UsbSpeed::Super);
    assert_eq!(classify_speed("999"), UsbSpeed::Unknown("999".to_string()));
}

#[test]
fn test_extract_vid_pid() {
    assert_eq!(extract_vid(r"USB\VID_046D&PID_C52B\5&2F4E3A01&0&2"), Some(0x046D));
    assert_eq!(extract_pid(r"USB\VID_046D&PID_C52B\5&2F4E3A01&0&2"), Some(0xC52B));
}

#[test]
fn test_wmi_row_to_usb() {
    let row = WmiUsbRow {
        device_id: Some(r"USB\VID_046D&PID_C52B\5&2F4E3A01&0&2".to_string()),
        name: Some("Logitech Unifying Receiver".to_string()),
        manufacturer: Some("Logitech".to_string()),
        status: Some("OK".to_string()),
        index: Some(0),
    };

    let dev = wmi_row_to_usb(&row).unwrap();
    assert_eq!(dev.vendor_id, 0x046D);
    assert_eq!(dev.product_id, 0xC52B);
    assert_eq!(dev.product.as_deref(), Some("Logitech Unifying Receiver"));
}

fn row(id: Option<&str>, index: Option<u32>) -> WmiUsbRow {
    WmiUsbRow {
        device_id: id.map(|s| s.to_string()),
        name: Some("Device".to_string()),
        manufacturer: None,
        status: Some("OK".to_string()),
        index,
    }
}

#[test]
fn wmi_row_fields_beyond_ids() {
    let dev = wmi_row_to_usb(&row(Some(r"USB\VID_046D&PID_C52B\5&2F4E3A01&0&2"), Some(7))).unwrap();
    assert_eq!(dev.bus, 0);
    assert_eq!(dev.port_path, "7");
    assert_eq!(dev.devnum, 7);
    assert_eq!(dev.serial_number, None);
    assert_eq!(dev.sysfs_id, r"USB\VID_046D&PID_C52B");
    assert_eq!(dev.speed, UsbSpeed::Unknown("N/A".to_string()));
    assert_eq!(dev.manufacturer, None);
    assert_eq!(dev.usb_version, None);
    assert_eq!(dev.max_power_ma, None);
    assert_eq!(dev.device_class, 0);
}

#[test]
fn wmi_row_serial_number_and_index() {
    let dev = wmi_row_to_usb(&row(Some(r"USBSTOR\VID_0781&PID_5581\4C530001230"), Some(70000))).unwrap();
    assert_eq!(dev.serial_number.as_deref(), Some("4C530001230"));
    assert_eq!(dev.port_path, "70000");
    assert_eq!(dev.devnum, (70000u32 % 65536) as u16);
    assert_eq!(dev.sysfs_id, r"USBSTOR\VID_0781&PID_5581");
    let dev = wmi_row_to_usb(&row(Some(r"VID_0781&PID_5581"), None)).unwrap();
    assert_eq!(dev.sysfs_id, r"VID_0781&PID_5581\");
    assert_eq!(dev.port_path, "0");
    assert_eq!(dev.serial_number, None);
}

#[test]
fn wmi_row_without_ids_is_dropped() {
    assert!(wmi_row_to_usb(&row(None, Some(1))).is_none());
    assert!(wmi_row_to_usb(&row(Some(r"HID\VID_046D\1"), Some(1))).is_none());
    assert!(wmi_row_to_usb(&row(Some(r"USB\VID_&PID_C52B\1"), Some(1))).is_none());
}

#[test]
fn extract_ids_edge_cases() {
    assert_eq!(extract_vid("VID_ffff"), Some(0xFFFF));
    assert_eq!(extract_vid("VID_10000"), None);
    assert_eq!(extract_vid("xVID_12gVID_34"), Some(0x12));
    assert_eq!(extract_pid("no ids"), None);
    assert_eq!(extract_pid("PID_c52b&MI_00"), Some(0xC52B));
}

#[test]
fn classify_speed_all_rates() {
    assert_eq!(classify_speed("1.5"), UsbSpeed::Low);
    assert_eq!(classify_speed("12"), UsbSpeed::Full);
    assert_eq!(classify_speed("10000"), UsbSpeed::SuperPlus);
    assert_eq!(classify_speed("20000"), UsbSpeed::SuperPlus2x2);
    assert_eq!(classify_speed(""), UsbSpeed::Unknown(String::new()));
}

#[test]
fn max_power_forms() {
    assert_eq!(parse_max_power("500mA"), Some(500));
    assert_eq!(parse_max_power("0mA"), Some(0));
    assert_eq!(parse_max_power("100 mA"), Some(100));
    assert_eq!(parse_max_power("500"), None);
    assert_eq!(parse_max_power("mA"), None);
    assert_eq!(parse_max_power("4294967296mA"), None);
}

#[test]
fn hex_u16_attribute() {
    assert_eq!(read_hex_u16(Some("046d\n")), Some(0x046D));
    assert_eq!(read_hex_u16(Some("xyz")), None);
    assert_eq!(read_hex_u16(None), None);
}

fn attrs(vendor: &str, bus: &str, devpath: Option<&str>) -> UsbAttrs {
    let s = |v: &str| Some(v.to_string());
    UsbAttrs {
        id_vendor: s(vendor),
        id_product: s("c52b\n"),
        busnum: s(bus),
        devnum: s("3\n"),
        devpath: devpath.map(|p| p.to_string()),
        manufacturer: s("Logitech\n"),
        product: s(" USB Receiver \n"),
        serial: None,
        version: s(" 2.00\n"),
        b_device_class: s("ef\n"),
        speed: s("12\n"),
        b_max_power: s("98mA\n"),
    }
}

#[test]
fn collect_device_reads_attributes() {
    let d = collect_device("1-2", &attrs("046d\n", "1\n", Some("2\n"))).unwrap();
    assert_eq!(d.vendor_id, 0x046D);
    assert_eq!(d.product_id, 0xC52B);
    assert_eq!(d.bus, 1);
    assert_eq!(d.devnum, 3);
    assert_eq!(d.port_path, "2");
    assert_eq!(d.manufacturer.as_deref(), Some("Logitech"));
    assert_eq!(d.product.as_deref(), Some("USB Receiver"));
    assert_eq!(d.serial_number, None);
    assert_eq!(d.usb_version.as_deref(), Some("2.00"));
    assert_eq!(d.device_class, 0xEF);
    assert_eq!(d.speed, UsbSpeed::Full);
    assert_eq!(d.max_power_ma, Some(98));
    assert_eq!(d.sysfs_id, "1-2");
    let d = collect_device("usb1", &attrs("1d6b\n", "258\n", None)).unwrap();
    assert_eq!(d.bus, 2);
    assert_eq!(d.port_path, "0");
    assert!(collect_device("1-3", &attrs("zz\n", "1\n", None)).is_none());
}

#[test]
fn collect_skips_interfaces_and_orders_by_bus_then_port() {
    let e = |name: &str, bus: &str, port: &str| UsbEntry {
        name: name.to_string(),
        attrs: attrs("046d", bus, Some(port)),
    };
    let entries = vec![
        e("2-1", "2", "1"),
        e("1-1:1.0", "1", "1"),
        e("1-2", "1", "2"),
        e("1-10", "1", "10"),
        e("usb1", "1", "0"),
    ];
    let devices = collect(&entries);
    let ids: Vec<&str> = devices.iter().map(|d| d.sysfs_id.as_str()).collect();
    assert_eq!(ids, vec!["usb1", "1-10", "1-2", "2-1"]);
}

#[test]
fn wmi_rows_sorted_by_port_path() {
    let rows = vec![
        row(Some(r"USB\VID_0001&PID_0002\A"), Some(10)),
        row(Some(r"HID\nothing"), Some(3)),
        row(Some(r"USB\VID_0003&PID_0004\B"), Some(2)),
    ];
    let devices = devices_from_wmi_rows(&rows);
    let ports: Vec<&str> = devices.iter().map(|d| d.port_path.as_str()).collect();
    assert_eq!(ports, vec!["10", "2"]);
}

#[test]
fn powershell_output_framing() {
    assert_eq!(powershell_json_array("  \r\n"), None);
    assert_eq!(powershell_json_array("[{\"a\":1}]\r\n").as_deref(), Some("[{\"a\":1}]"));
    assert_eq!(powershell_json_array(" {\"a\":1}\n").as_deref(), Some("[{\"a\":1}]"));
}

#[test]
fn usb_collector_name() {
    assert_eq!(UsbCollector.name(), "usb");
}
