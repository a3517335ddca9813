use usb_hive::extract::{
    get_all_timestamps, get_vendor_product_version, get_vid_pid, get_volume_guid,
    get_volume_name_drive_letter, gpt_partition_signature, read_device_record, timestamp_at,
    try_get_all_timestamps, try_get_vendor_product_version, try_get_vid_pid, try_get_volume_guid,
    try_get_volume_name_drive_letter, try_timestamp_at,
};
use usb_hive::hive_check::check_path;
use usb_hive::hive::RegistryError;
use usb_hive::structure::UsbInfo;

const SERIAL: &str = "60A44C3FAE22EEA0797900F7";
const DEVICE_CLASS: &str = "Disk&Ven_Kingston&Prod_DataTraveler_3.0&Rev_PMAP";
const PROPERTIES: &str = "{83da6326-97a6-4088-9453-a1923f573b29}";
const REG_SZ: u32 = 1;
const REG_BINARY: u32 = 3;

/// A registry key to be written into a test hive.
struct Key {
    name: String,
    subkeys: Vec<Key>,
    values: Vec<(String, u32, Vec<u8>)>,
}

fn key(name: &str, subkeys: Vec<Key>) -> Key {
    Key { name: name.to_string(), subkeys, values: Vec::new() }
}

fn key_with_values(name: &str, values: Vec<(String, u32, Vec<u8>)>) -> Key {
    Key { name: name.to_string(), subkeys: Vec::new(), values }
}

fn utf16le(text: &str) -> Vec<u8> {
    let mut out = Vec::new();
    for unit in text.encode_utf16() {
        out.extend_from_slice(&unit.to_le_bytes());
    }
    out
}

/// Writes a cell holding `content`; gives its offset in the hive data.
fn cell(data: &mut Vec<u8>, content: &[u8]) -> u32 {
    let offset = data.len() as u32;
    let mut size = content.len() + 4;
    while size % 8 != 0 {
        size += 1;
    }
    data.extend_from_slice(&(-(size as i32)).to_le_bytes());
    data.extend_from_slice(content);
    while data.len() < offset as usize + size {
        data.push(0);
    }
    offset
}

fn write_value(data: &mut Vec<u8>, name: &str, kind: u32, bytes: &[u8]) -> u32 {
    let (size_field, data_offset) = if bytes.len() <= 4 {
        let mut inline = [0u8; 4];
        inline[..bytes.len()].copy_from_slice(bytes);
        (bytes.len() as u32 | 0x8000_0000, u32::from_le_bytes(inline))
    } else {
        (bytes.len() as u32, cell(data, bytes))
    };
    let mut vk = Vec::new();
    vk.extend_from_slice(b"vk");
    vk.extend_from_slice(&(name.len() as u16).to_le_bytes());
    vk.extend_from_slice(&size_field.to_le_bytes());
    vk.extend_from_slice(&data_offset.to_le_bytes());
    vk.extend_from_slice(&kind.to_le_bytes());
    vk.extend_from_slice(&1u16.to_le_bytes());
    vk.extend_from_slice(&0u16.to_le_bytes());
    vk.extend_from_slice(name.as_bytes());
    cell(data, &vk)
}

fn write_key(data: &mut Vec<u8>, key: &mut Key) -> u32 {
    key.subkeys.sort_by_key(|k| k.name.to_uppercase());
    let mut subkey_offsets = Vec::new();
    for subkey in key.subkeys.iter_mut() {
        subkey_offsets.push(write_key(data, subkey));
    }
    let subkeys_list = if subkey_offsets.is_empty() {
        u32::MAX
    } else {
        let mut lf = Vec::new();
        lf.extend_from_slice(b"lf");
        lf.extend_from_slice(&(subkey_offsets.len() as u16).to_le_bytes());
        for offset in &subkey_offsets {
            lf.extend_from_slice(&offset.to_le_bytes());
            lf.extend_from_slice(&[0, 0, 0, 0]);
        }
        cell(data, &lf)
    };
    let mut value_offsets = Vec::new();
    for (name, kind, bytes) in &key.values {
        value_offsets.push(write_value(data, name, *kind, bytes));
    }
    let values_list = if value_offsets.is_empty() {
        u32::MAX
    } else {
        let mut list = Vec::new();
        for offset in &value_offsets {
            list.extend_from_slice(&offset.to_le_bytes());
        }
        cell(data, &list)
    };
    let mut nk = Vec::new();
    nk.extend_from_slice(b"nk");
    nk.extend_from_slice(&0x20u16.to_le_bytes());
    nk.extend_from_slice(&0u64.to_le_bytes());
    nk.extend_from_slice(&0u32.to_le_bytes());
    nk.extend_from_slice(&0u32.to_le_bytes());
    nk.extend_from_slice(&(subkey_offsets.len() as u32).to_le_bytes());
    nk.extend_from_slice(&0u32.to_le_bytes());
    nk.extend_from_slice(&subkeys_list.to_le_bytes());
    nk.extend_from_slice(&u32::MAX.to_le_bytes());
    nk.extend_from_slice(&(value_offsets.len() as u32).to_le_bytes());
    nk.extend_from_slice(&values_list.to_le_bytes());
    nk.extend_from_slice(&u32::MAX.to_le_bytes());
    nk.extend_from_slice(&u32::MAX.to_le_bytes());
    for _ in 0..5 {
        nk.extend_from_slice(&0u32.to_le_bytes());
    }
    nk.extend_from_slice(&(key.name.len() as u16).to_le_bytes());
    nk.extend_from_slice(&0u16.to_le_bytes());
    nk.extend_from_slice(key.name.as_bytes());
    cell(data, &nk)
}

/// The bytes of a hive file whose root key is `root`.
fn hive(mut root: Key) -> Vec<u8> {
    let mut data = vec![0u8; 32];
    let root_offset = write_key(&mut data, &mut root);
    while data.len() % 4096 != 0 {
        data.push(0);
    }
    let mut base = vec![0u8; 4096];
    base[0..4].copy_from_slice(b"regf");
    base[4..8].copy_from_slice(&1u32.to_le_bytes());
    base[8..12].copy_from_slice(&1u32.to_le_bytes());
    base[20..24].copy_from_slice(&1u32.to_le_bytes());
    base[24..28].copy_from_slice(&5u32.to_le_bytes());
    base[28..32].copy_from_slice(&0u32.to_le_bytes());
    base[32..36].copy_from_slice(&1u32.to_le_bytes());
    base[36..40].copy_from_slice(&root_offset.to_le_bytes());
    base[40..44].copy_from_slice(&(data.len() as u32).to_le_bytes());
    base[44..48].copy_from_slice(&1u32.to_le_bytes());
    let mut checksum = 0u32;
    for i in 0..127 {
        checksum ^= u32::from_le_bytes([base[4 * i], base[4 * i + 1], base[4 * i + 2], base[4 * i + 3]]);
    }
    if checksum == 0 {
        checksum = 1;
    } else if checksum == u32::MAX {
        checksum = u32::MAX - 1;
    }
    base[508..512].copy_from_slice(&checksum.to_le_bytes());
    base.extend_from_slice(&data);
    base
}

/// A raw registry timestamp for the given number of seconds after 1601.
fn filetime(seconds: u64) -> Vec<u8> {
    (seconds * 10_000_000).to_le_bytes().to_vec()
}

// 2019-01-01, 2019-01-02 12:00:00 and 2019-01-03 00:00:30 UTC.
const INSTALLED: u64 = 13_190_774_400;
const CONNECTED: u64 = 13_190_774_400 + 86_400 + 43_200;
const REMOVED: u64 = 13_190_774_400 + 2 * 86_400 + 30;

fn time_key(name: &str, seconds: u64) -> Key {
    key_with_values(name, vec![("".to_string(), REG_BINARY, filetime(seconds))])
}

fn mounted_record() -> Vec<u8> {
    utf16le(&format!(
        "_??_USBSTOR#Disk&Ven_Kingston&Prod_DataTraveler_3.0&Rev_PMAP#{}&0#{{53f56307-b6bf-11d0-94f2-00a0c91efb8b}}",
        SERIAL
    ))
}

/// Data of a GPT partition value: not UTF-8, and holding `DMIO:ID:`.
fn gpt_record() -> Vec<u8> {
    let mut data = vec![0xff, 0xfe];
    data.extend_from_slice(b"DMIO:ID:");
    data.extend_from_slice(&[0x9c, 0x01, 0x02, 0x03]);
    data
}

fn system_hive() -> Vec<u8> {
    let device = key(
        &format!("{}&0", SERIAL),
        vec![key(
            "Properties",
            vec![key(
                PROPERTIES,
                vec![time_key("0064", INSTALLED), time_key("0066", CONNECTED), time_key("0067", REMOVED)],
            )],
        )],
    );
    let usbstor = key("USBSTOR", vec![key(DEVICE_CLASS, vec![device])]);
    let usb = key(
        "USB",
        vec![
            key("VID_0951&PID_1666", vec![key(SERIAL, vec![])]),
            key("ROOT_HUB30", vec![key("4&2b6a9a9a&0", vec![])]),
        ],
    );
    let mounted = key_with_values(
        "MountedDevices",
        vec![
            ("\\DosDevices\\E:".to_string(), REG_BINARY, mounted_record()),
            ("\\??\\Volume{0f1e2d3c-4b5a-6978-8796-a5b4c3d2e1f0}".to_string(), REG_BINARY, mounted_record()),
            ("\\DosDevices\\C:".to_string(), REG_BINARY, vec![0x44, 0x4d, 0x49, 0x4f]),
            ("\\DosDevices\\G:".to_string(), REG_BINARY, gpt_record()),
        ],
    );
    hive(key(
        "ROOT",
        vec![key("ControlSet001", vec![key("Enum", vec![usbstor, usb])]), mounted],
    ))
}

fn software_hive() -> Vec<u8> {
    let portable = Key {
        name: format!(
            "SWD#WPDBUSENUM#_??_USBSTOR#DISK&VEN_KINGSTON&PROD_DATATRAVELER_3.0&REV_PMAP#{}&0#{{53F56307-B6BF-11D0-94F2-00A0C91EFB8B}}",
            SERIAL
        ),
        subkeys: Vec::new(),
        values: vec![("FriendlyName".to_string(), REG_SZ, utf16le("KINGSTON"))],
    };
    let no_string = Key {
        name: "A#B#C#D#E#F".to_string(),
        subkeys: Vec::new(),
        values: vec![("FriendlyName".to_string(), REG_BINARY, vec![1, 2, 3, 4, 5, 6])],
    };
    hive(key(
        "ROOT",
        vec![key(
            "Microsoft",
            vec![key("Windows Portable Devices", vec![key("Devices", vec![portable, no_string])])],
        )],
    ))
}

#[test]
fn reads_timestamp_from_hive() {
    let system = system_hive();
    let path = format!(
        "ControlSet001\\Enum\\USBSTOR\\{}\\{}&0\\Properties\\{}\\0064",
        DEVICE_CLASS, SERIAL, PROPERTIES
    );
    assert_eq!(try_timestamp_at(&system, &path), Ok("2019-01-01 00:00:00.000".to_string()));
    assert_eq!(
        try_timestamp_at(&system, &"ControlSet001\\Missing".to_string()),
        Err(RegistryError::UnreadableKey)
    );
}

#[test]
fn reads_all_timestamps() {
    let system = system_hive();
    let path = format!("ControlSet001\\Enum\\USBSTOR\\{}\\{}&0", DEVICE_CLASS, SERIAL);
    let mut info = UsbInfo::new();
    assert_eq!(try_get_all_timestamps(&system, path, &mut info), Ok(()));
    assert_eq!(info.first_install, "2019-01-01 00:00:00.000");
    assert_eq!(info.last_connected, "2019-01-02 12:00:00.000");
    assert_eq!(info.last_removed, "2019-01-03 00:00:30.000");
}

#[test]
fn reads_device_record() {
    let system = system_hive();
    let info = read_device_record(&system, &DEVICE_CLASS.to_string()).unwrap();
    assert_eq!(info.drive_type, "Disk");
    assert_eq!(info.vendor, "Ven_Kingston");
    assert_eq!(info.product, "Prod_DataTraveler_3.0");
    assert_eq!(info.version, "Rev_PMAP");
    assert_eq!(info.usn, SERIAL);
    assert_eq!(info.first_install, "2019-01-01 00:00:00.000");
    assert!(matches!(
        read_device_record(&system, &"Disk&Ven_Only".to_string()),
        Err(RegistryError::MalformedKeyName)
    ));
    assert!(matches!(
        read_device_record(&system, &"Disk&Ven&Prod&Rev".to_string()),
        Err(RegistryError::UnreadableKey)
    ));
}

#[test]
fn full_extraction() {
    let system = system_hive();
    let software = software_hive();
    let mut list: Vec<UsbInfo> = Vec::new();
    let mut gpt: usize = 99;

    assert_eq!(try_get_vendor_product_version(&system, &mut list), Ok(()));
    assert_eq!(list.len(), 1);
    assert_eq!(list[0].usn, SERIAL);
    assert_eq!(list[0].last_removed, "2019-01-03 00:00:30.000");

    assert_eq!(try_get_vid_pid(&system, &mut list), Ok(()));
    // The root hub is not a storage device: it gets a record of its own.
    assert_eq!(list.len(), 2);
    assert_eq!(list[0].vid, "VID_0951");
    assert_eq!(list[0].pid, "PID_1666");
    assert_eq!(list[1].usn, "4&2b6a9a9a&0");
    assert_eq!(list[1].vid, "ROOT_HUB30");
    assert_eq!(list[1].pid, "");

    assert_eq!(try_get_volume_guid(&system, &mut list, &mut gpt), Ok(()));
    assert_eq!(gpt, 1);
    assert_eq!(list.len(), 2);
    assert_eq!(list[0].friendly_name, vec!["\\E:"]);
    assert_eq!(list[0].guid, "{0f1e2d3c-4b5a-6978-8796-a5b4c3d2e1f0}");

    assert_eq!(try_get_volume_name_drive_letter(&software, &mut list), Ok(()));
    assert_eq!(list.len(), 2);
    assert_eq!(list[0].friendly_name, vec!["\\E:", "KINGSTON"]);
    assert!(list[1].friendly_name.is_empty());

    let text = list[0].to_display_string();
    assert!(text.starts_with("Type: \t\t\tDisk\nVendor: \t\tVen_Kingston\n"));
    assert!(text.ends_with("GUID: \t\t\t{0f1e2d3c-4b5a-6978-8796-a5b4c3d2e1f0}\n"));
}

#[test]
fn missing_device_key_is_an_error() {
    // A hive with no Enum\USB key.
    let only_root = hive(key("ROOT", vec![]));
    let mut list = Vec::new();
    assert_eq!(try_get_vid_pid(&only_root, &mut list), Err(RegistryError::UnreadableKey));
    assert!(list.is_empty());
}

#[test]
fn vendor_pass_keeps_existing_records() {
    let system = system_hive();
    let mut earlier = UsbInfo::new();
    earlier.usn = "EARLIER".to_string();
    earlier.vendor = "Ven_Old".to_string();
    let mut list = vec![earlier];
    let mut gpt: usize = 0;
    assert_eq!(try_get_vendor_product_version(&system, &mut list), Ok(()));
    assert_eq!(list.len(), 2);
    assert_eq!(list[0].usn, "EARLIER");
    assert_eq!(list[0].vendor, "Ven_Old");
    assert_eq!(list[1].usn, SERIAL);
    // The volume passes neither add records nor change serial numbers.
    assert_eq!(try_get_volume_guid(&system, &mut list, &mut gpt), Ok(()));
    assert_eq!(try_get_volume_name_drive_letter(&software_hive(), &mut list), Ok(()));
    assert_eq!(list.len(), 2);
    assert_eq!(list[0].usn, "EARLIER");
    assert_eq!(list[1].usn, SERIAL);
    assert_eq!(list[1].vendor, "Ven_Kingston");
}

#[test]
fn passes_run_on_a_readable_hive() {
    let system = system_hive();
    let software = software_hive();
    let mut list: Vec<UsbInfo> = Vec::new();
    let mut gpt: usize = 0;
    get_vendor_product_version(&system, &mut list);
    get_vid_pid(&system, &mut list);
    get_volume_guid(&system, &mut list, &mut gpt);
    get_volume_name_drive_letter(&software, &mut list);
    assert_eq!(gpt, 1);
    assert_eq!(list.len(), 2);
    assert_eq!(list[0].vid, "VID_0951");
    assert_eq!(list[0].friendly_name, vec!["\\E:", "KINGSTON"]);
    assert_eq!(list[0].guid, "{0f1e2d3c-4b5a-6978-8796-a5b4c3d2e1f0}");

    let path = format!("ControlSet001\\Enum\\USBSTOR\\{}\\{}&0", DEVICE_CLASS, SERIAL);
    let mut info = UsbInfo::new();
    get_all_timestamps(&system, path.clone(), &mut info);
    assert_eq!(info.last_connected, "2019-01-02 12:00:00.000");
    let first = format!("{}\\Properties\\{}\\0064", path, PROPERTIES);
    assert_eq!(timestamp_at(&system, &first), "2019-01-01 00:00:00.000");
}

#[test]
fn failed_pass_leaves_records_unchanged() {
    let short_guid = format!("\\??\\Volume{{{}", "0f1e2d3c");
    let mounted = key_with_values(
        "MountedDevices",
        vec![
            ("\\DosDevices\\E:".to_string(), REG_BINARY, mounted_record()),
            ("\\DosDevices\\G:".to_string(), REG_BINARY, gpt_record()),
            (short_guid, REG_BINARY, mounted_record()),
            ("\\DosDevices\\H:".to_string(), REG_BINARY, gpt_record()),
        ],
    );
    let system = hive(key("ROOT", vec![mounted]));
    let mut device = UsbInfo::new();
    device.usn = SERIAL.to_string();
    let mut list = vec![device];
    let mut gpt: usize = 0;
    assert_eq!(
        try_get_volume_guid(&system, &mut list, &mut gpt),
        Err(RegistryError::MalformedValueName)
    );
    // The pass stops at the third value: one GPT value was looked at before.
    assert_eq!(gpt, 1);
    assert!(list[0].friendly_name.is_empty());
    assert_eq!(list[0].guid, "");

    let mut info = UsbInfo::new();
    info.vendor = "Ven_Kept".to_string();
    let path = format!("ControlSet001\\Enum\\USBSTOR\\{}\\{}&0", DEVICE_CLASS, SERIAL);
    assert_eq!(try_get_all_timestamps(&system, path, &mut info), Err(RegistryError::UnreadableKey));
    assert_eq!(info.vendor, "Ven_Kept");
    assert_eq!(info.first_install, "");
}

#[test]
fn gpt_signature_needs_non_utf8_data_with_marker() {
    assert!(gpt_partition_signature(&gpt_record()));
    // Valid UTF-8 text holding the marker is not a GPT record.
    assert!(!gpt_partition_signature(&b"xxDMIO:ID:yy".to_vec()));
    // Data that is not UTF-8 without the marker is not one either.
    assert!(!gpt_partition_signature(&vec![0xff, 0x44, 0x4d, 0x49, 0x4f, 0x3a, 0x49, 0x44]));
    // The marker at the very end.
    assert!(gpt_partition_signature(&[&[0xffu8][..], b"DMIO:ID:"].concat()));
    assert!(!gpt_partition_signature(&Vec::new()));
}

/// Writes `value` as the 32-bit field at `pos` of the hive bytes.
fn set_u32(bytes: &mut Vec<u8>, pos: usize, value: u32) {
    bytes[pos..pos + 4].copy_from_slice(&value.to_le_bytes());
}

const USB_PATH: &str = "ControlSet001\\Enum\\USB";

#[test]
fn check_path_accepts_written_hives() {
    assert!(check_path(&system_hive(), USB_PATH));
    assert!(check_path(&system_hive(), "MountedDevices"));
    assert!(check_path(&system_hive(), "\\ControlSet001\\\\Enum\\USBSTOR\\"));
    assert!(check_path(&software_hive(), "Microsoft\\Windows Portable Devices\\Devices"));
    assert!(check_path(&hive(key("ROOT", vec![])), USB_PATH));
    assert!(check_path(&system_hive(), "No\\Such\\Key"));
    // Bytes shorter than a base block: nt_hive refuses them with an error.
    assert!(check_path(&[], USB_PATH));
    assert!(check_path(&[0u8; 100], USB_PATH));
}

#[test]
fn wrong_signature_is_refused() {
    let mut system = system_hive();
    system[0..4].copy_from_slice(b"xxxx");
    assert!(!check_path(&system, USB_PATH));
    assert!(!check_path(&vec![0u8; 4096], USB_PATH));
    let mut list = Vec::new();
    assert_eq!(try_get_vid_pid(&system, &mut list), Err(RegistryError::UnreadableKey));
    assert_eq!(try_timestamp_at(&system, &"A".to_string()), Err(RegistryError::UnreadableKey));
    assert!(list.is_empty());
}

#[test]
fn bad_root_offset_is_refused() {
    let mut system = system_hive();
    set_u32(&mut system, 36, u32::MAX);
    assert!(!check_path(&system, USB_PATH));
    let mut device = UsbInfo::new();
    device.usn = SERIAL.to_string();
    let mut list = vec![device];
    let mut gpt: usize = 5;
    assert_eq!(try_get_vendor_product_version(&system, &mut list), Err(RegistryError::UnreadableKey));
    assert_eq!(try_get_vid_pid(&system, &mut list), Err(RegistryError::UnreadableKey));
    assert_eq!(try_get_volume_guid(&system, &mut list, &mut gpt), Err(RegistryError::UnreadableKey));
    assert_eq!(gpt, 0);
    assert_eq!(
        try_get_volume_name_drive_letter(&system, &mut list),
        Err(RegistryError::UnreadableKey)
    );
    assert_eq!(list.len(), 1);
    assert_eq!(list[0].vid, "");
}

#[test]
fn bad_subkey_offset_on_the_path_is_refused() {
    let mut system = system_hive();
    // Keys are written depth first, in name order: the first subkey list in
    // the hive data is that of `Enum\USB\ROOT_HUB30`, which the USB pass reads.
    let at = (4096..system.len() - 8)
        .find(|&p| &system[p..p + 2] == b"lf")
        .unwrap();
    set_u32(&mut system, at + 4, u32::MAX);
    assert!(!check_path(&system, "ControlSet001\\Enum\\USB\\ROOT_HUB30"));
    assert!(check_path(&system, "ControlSet001\\Enum\\USB\\VID_0951&PID_1666"));
    let mut list = Vec::new();
    assert_eq!(try_get_vid_pid(&system, &mut list), Err(RegistryError::UnreadableKey));
    assert!(list.is_empty());
}

#[test]
fn bad_offset_off_the_path_is_not_looked_at() {
    let mut system = system_hive();
    // The value cell of the GPT record: its data lies in a cell of its own.
    let at = (4096..system.len() - 16)
        .find(|&p| &system[p..p + 2] == b"vk" && system[p + 4..p + 8] == 14u32.to_le_bytes())
        .unwrap();
    set_u32(&mut system, at + 8, u32::MAX);
    // Only the `MountedDevices` key reads that value.
    assert!(!check_path(&system, "MountedDevices"));
    assert!(check_path(&system, USB_PATH));
    let mut list = Vec::new();
    assert_eq!(try_get_vendor_product_version(&system, &mut list), Ok(()));
    assert_eq!(try_get_vid_pid(&system, &mut list), Ok(()));
    assert_eq!(list.len(), 2);
    let mut gpt: usize = 0;
    assert_eq!(try_get_volume_guid(&system, &mut list, &mut gpt), Err(RegistryError::UnreadableKey));
}

#[test]
fn later_passes_keep_other_fields() {
    let system = system_hive();
    let mut list: Vec<UsbInfo> = Vec::new();
    assert_eq!(try_get_vendor_product_version(&system, &mut list), Ok(()));
    let before = list[0].to_display_string();
    assert_eq!(try_get_vid_pid(&system, &mut list), Ok(()));
    // Only the identifiers changed.
    let mut ids_cleared = list[0].to_display_string();
    ids_cleared = ids_cleared.replace("PID_1666", "").replace("VID_0951", "");
    assert_eq!(ids_cleared, before);
    list[0].guid = "{kept}".to_string();
    list[0].friendly_name = vec!["\\Z:".to_string()];
    assert_eq!(try_get_volume_name_drive_letter(&software_hive(), &mut list), Ok(()));
    assert_eq!(list[0].guid, "{kept}");
    assert_eq!(list[0].friendly_name, vec!["\\Z:", "KINGSTON"]);
}
