use usb_hive::extract::{
    apply_friendly_name, apply_mounted_device, apply_vid_pid, get_usb_unique_serial_number,
    try_get_vendor_product_version, try_get_vid_pid, try_get_volume_guid,
    try_get_volume_name_drive_letter,
    mounted_usn,
};
use usb_hive::hive::RegistryError;
use usb_hive::structure::{find_usn, UsbInfo};

const SERIAL: &str = "60A44C3FAE22EEA0797900F7";

fn utf16le(text: &str) -> Vec<u8> {
    let mut out = Vec::new();
    for unit in text.encode_utf16() {
        out.extend_from_slice(&unit.to_le_bytes());
    }
    out
}

fn device(usn: &str) -> UsbInfo {
    let mut info = UsbInfo::new();
    info.usn = usn.to_string();
    info
}

#[test]
fn new_record_is_empty() {
    let info = UsbInfo::new();
    assert_eq!(info.drive_type, "");
    assert_eq!(info.usn, "");
    assert_eq!(info.guid, "");
    assert!(info.friendly_name.is_empty());
}

#[test]
fn find_usn_gives_first_match() {
    let list = vec![device("A"), device("B"), device("B")];
    assert_eq!(find_usn("B".to_string(), &list), Some(1));
    assert_eq!(find_usn("A".to_string(), &list), Some(0));
    assert_eq!(find_usn("C".to_string(), &list), None);
    assert_eq!(find_usn("".to_string(), &Vec::new()), None);
}

#[test]
fn display_text() {
    let mut info = device(SERIAL);
    info.vendor = "Ven_Kingston".to_string();
    info.vid = "VID_0951".to_string();
    let text = info.to_display_string();
    assert_eq!(
        text,
        "Type: \t\t\t\nVendor: \t\tVen_Kingston\nProduct: \t\t\nVersion: \t\t\n\
Unique serial number: \t60A44C3FAE22EEA0797900F7\nFirst install (UTC): \t\n\
Last Connected (UTC): \t\nLast Removal (UTC): \t\nPID: \t\t\t\nVID: \t\t\tVID_0951\nGUID: \t\t\t\n"
    );
}

#[test]
fn serial_number_from_last_subkey() {
    let mut info = UsbInfo::new();
    get_usb_unique_serial_number(&vec!["AAA&0".to_string(), "BBB&1".to_string()], &mut info);
    assert_eq!(info.usn, "BBB");
    let mut untouched = device("keep");
    get_usb_unique_serial_number(&Vec::new(), &mut untouched);
    assert_eq!(untouched.usn, "keep");
}

#[test]
fn vid_pid_adds_unknown_device() {
    let mut list = Vec::new();
    let key = "VID_0951&PID_1666".to_string();
    assert_eq!(apply_vid_pid(&mut list, &key, SERIAL.to_string()), Ok(()));
    assert_eq!(list.len(), 1);
    assert_eq!(list[0].usn, SERIAL);
    assert_eq!(list[0].vid, "VID_0951");
    assert_eq!(list[0].pid, "PID_1666");
    assert_eq!(find_usn(SERIAL.to_string(), &list), Some(0));
}

#[test]
fn vid_pid_updates_known_device() {
    let mut list = vec![device("other"), device(SERIAL)];
    let key = "VID_0951&PID_1666&MI_00".to_string();
    assert_eq!(apply_vid_pid(&mut list, &key, SERIAL.to_string()), Ok(()));
    assert_eq!(list.len(), 2);
    assert_eq!(list[1].vid, "VID_0951");
    assert_eq!(list[1].pid, "PID_1666");
    assert_eq!(list[0].vid, "");
}

#[test]
fn vid_pid_root_hub_has_no_pid() {
    let mut list = Vec::new();
    let key = "ROOT_HUB30".to_string();
    assert_eq!(apply_vid_pid(&mut list, &key, "4&1234&0".to_string()), Ok(()));
    assert_eq!(list[0].vid, "ROOT_HUB30");
    assert_eq!(list[0].pid, "");
}

#[test]
fn vid_pid_rejects_key_without_pid() {
    let mut list = vec![device(SERIAL)];
    let key = "VID_0951".to_string();
    assert_eq!(
        apply_vid_pid(&mut list, &key, SERIAL.to_string()),
        Err(RegistryError::MalformedKeyName)
    );
    assert_eq!(list[0].vid, "");
}

#[test]
fn friendly_name_goes_to_named_device() {
    let mut list = vec![device(SERIAL)];
    let key = format!(
        "SWD#WPDBUSENUM#_??_USBSTOR#DISK&VEN_KINGSTON&PROD_DT&REV_PMAP#{}&0#{{53F56307-B6BF-11D0-94F2-00A0C91EFB8B}}",
        SERIAL
    );
    apply_friendly_name(&mut list, &key, Some("KINGSTON".to_string()));
    assert_eq!(list[0].friendly_name, vec!["KINGSTON"]);
    // No string data: nothing changes.
    apply_friendly_name(&mut list, &key, None);
    assert_eq!(list[0].friendly_name, vec!["KINGSTON"]);
    // Too few fields: nothing changes.
    apply_friendly_name(&mut list, &"SWD#WPDBUSENUM#X".to_string(), Some("E:".to_string()));
    assert_eq!(list[0].friendly_name, vec!["KINGSTON"]);
}

fn mounted_data() -> Vec<u8> {
    utf16le(&format!(
        "_??_USBSTOR#Disk&Ven_Kingston&Prod_DataTraveler_3.0&Rev_PMAP#{}&0#{{53f56307-b6bf-11d0-94f2-00a0c91efb8b}}",
        SERIAL
    ))
}

#[test]
fn mounted_data_names_serial() {
    assert_eq!(mounted_usn(&mounted_data()), Some(SERIAL.to_string()));
    // Few fields, or bytes that are not UTF-8: the empty serial number.
    assert_eq!(mounted_usn(&b"a&b".to_vec()), Some(String::new()));
    assert_eq!(mounted_usn(&vec![0xff, 0xfe]), Some(String::new()));
    // A fourth field without '#'.
    assert_eq!(mounted_usn(&b"a&b&c&d&e".to_vec()), None);
}

#[test]
fn mounted_device_gives_drive_letter_and_guid() {
    let mut list = vec![device(SERIAL)];
    let data = mounted_data();
    assert_eq!(apply_mounted_device(&mut list, &"\\DosDevices\\E:".to_string(), &data), Ok(()));
    assert_eq!(list[0].friendly_name, vec!["\\E:"]);
    let volume = "\\??\\Volume{0f1e2d3c-4b5a-6978-8796-a5b4c3d2e1f0}".to_string();
    assert_eq!(apply_mounted_device(&mut list, &volume, &data), Ok(()));
    assert_eq!(list[0].guid, "{0f1e2d3c-4b5a-6978-8796-a5b4c3d2e1f0}");
    // A name without '{' changes nothing.
    assert_eq!(apply_mounted_device(&mut list, &"plain".to_string(), &data), Ok(()));
    assert_eq!(list[0].guid, "{0f1e2d3c-4b5a-6978-8796-a5b4c3d2e1f0}");
}

#[test]
fn mounted_device_errors() {
    let mut list = vec![device(SERIAL)];
    let data = mounted_data();
    assert_eq!(
        apply_mounted_device(&mut list, &"\\??\\Volume{short}".to_string(), &data),
        Err(RegistryError::MalformedValueName)
    );
    assert_eq!(
        apply_mounted_device(&mut list, &"x".to_string(), &b"a&b&c&d&e".to_vec()),
        Err(RegistryError::MalformedDeviceRecord)
    );
    // Data naming no listed device: nothing happens, whatever the name.
    assert_eq!(apply_mounted_device(&mut list, &"\\DosDevices".to_string(), &b"x".to_vec()), Ok(()));
    assert_eq!(list[0].guid, "");
    assert!(list[0].friendly_name.is_empty());
}

#[test]
fn empty_serial_matches_device_without_serial() {
    // Data that names no serial number finds a record whose serial is empty.
    let mut list = vec![UsbInfo::new()];
    assert_eq!(apply_mounted_device(&mut list, &"\\DosDevices\\F:".to_string(), &b"x".to_vec()), Ok(()));
    assert_eq!(list[0].friendly_name, vec!["\\F:"]);
}

#[test]
fn unreadable_hive_is_an_error() {
    let mut list = vec![device(SERIAL)];
    let mut gpt = 7;
    assert_eq!(try_get_vendor_product_version(&[], &mut list), Err(RegistryError::UnreadableKey));
    assert_eq!(try_get_vid_pid(&[], &mut list), Err(RegistryError::UnreadableKey));
    assert_eq!(try_get_volume_guid(&[1, 2, 3], &mut list, &mut gpt), Err(RegistryError::UnreadableKey));
    assert_eq!(gpt, 0);
    assert_eq!(try_get_volume_name_drive_letter(&[], &mut list), Err(RegistryError::UnreadableKey));
    assert_eq!(list.len(), 1);
}
