//! Collecting USB device records from the `SYSTEM` and `SOFTWARE` hives.
//!
//! Each extraction walks the subkeys (or values) of one registry key and
//! updates the list of records one item at a time. An item that cannot be
//! read or decoded stops the walk with an error; the records then hold the
//! updates made for the items before it.

use vstd::prelude::*;
use crate::hive::{
    RegistryError, CONTROLSET_ENUM_USB, CONTROLSET_ENUM_USBSTOR, MICROSOFT_WPD_DEVICES,
    MOUNTED_DEVICES, SUFFIX_FIRST_INSTALL, SUFFIX_LAST_CONNECTED, SUFFIX_LAST_REMOVED,
    subkey_names_at, first_subkey_name_at, string_value_at, values_at, first_value_data_at,
    subkey_names, first_subkey_name, string_value, values, first_value_data,
};
use crate::structure::{
    copy_infos, UsbInfo, UsbInfoView, empty_info, infos, find_usn_spec, find_usn, lemma_find_usn_first,
};
use crate::timestamp::{timestamp_text_spec, extract_timestamp};
use crate::text::{
    split_spec, split_by_char, lemma_split_nonempty, contains_spec, contains_text, concat_text,
    byte_slice_spec, slice_by_bytes, first_byte_from, find_byte, nonzero_bytes_as_chars,
    nonzero_bytes_text, text_from_utf8,
};
use vstd::utf8::{valid_utf8, decode_utf8, encode_utf8};

verus! {

/// The effect of one item on the list of records: the new list, or the
/// reason the walk stops there.
pub type StepResult = Result<Seq<UsbInfoView>, RegistryError>;

/// Applies `step` to the items in order, stopping at the first failure.
/// Gives the records at the end, or just before the failing item, and the
/// failure, if any.
pub open spec fn apply_steps<T>(
    list: Seq<UsbInfoView>,
    items: Seq<T>,
    step: spec_fn(Seq<UsbInfoView>, T) -> StepResult,
) -> (Seq<UsbInfoView>, Option<RegistryError>)
    decreases items.len(),
{
    if items.len() == 0 {
        (list, None)
    } else {
        let (done, failure) = apply_steps(list, items.drop_last(), step);
        if failure is Some {
            (done, failure)
        } else {
            match step(done, items.last()) {
                Ok(next) => (next, None),
                Err(e) => (done, Some(e)),
            }
        }
    }
}

/// The outcome of a walk as the extraction functions return it.
pub open spec fn outcome(failure: Option<RegistryError>) -> Result<(), RegistryError> {
    match failure {
        Some(e) => Err(e),
        None => Ok(()),
    }
}

/// Once a walk has failed, the items after the failing one change nothing.
pub proof fn lemma_apply_steps_stops<T>(
    list: Seq<UsbInfoView>,
    items: Seq<T>,
    step: spec_fn(Seq<UsbInfoView>, T) -> StepResult,
    i: int,
)
    requires
        0 <= i <= items.len(),
        apply_steps(list, items.take(i), step).1 is Some,
    ensures
        apply_steps(list, items, step) == apply_steps(list, items.take(i), step),
    decreases items.len(),
{
    if i == items.len() {
        assert(items.take(i) =~= items);
    } else {
        assert(items.drop_last().take(i) =~= items.take(i));
        lemma_apply_steps_stops(list, items.drop_last(), step, i);
    }
}

/// A walk over the first `i + 1` items is the walk over the first `i` items
/// followed by item `i`.
pub proof fn lemma_apply_steps_next<T>(
    list: Seq<UsbInfoView>,
    items: Seq<T>,
    step: spec_fn(Seq<UsbInfoView>, T) -> StepResult,
    i: int,
)
    requires
        0 <= i < items.len(),
    ensures
        apply_steps(list, items.take(i + 1), step) == ({
            let (done, failure) = apply_steps(list, items.take(i), step);
            if failure is Some {
                (done, failure)
            } else {
                match step(done, items[i]) {
                    Ok(next) => (next, None),
                    Err(e) => (done, Some(e)),
                }
            }
        }),
{
    assert(items.take(i + 1).drop_last() =~= items.take(i));
}

/// `base`, a backslash, then `name`.
pub open spec fn subpath_spec(base: Seq<char>, name: Seq<char>) -> Seq<char> {
    base + "\\"@ + name
}

/// `base`, a backslash, then `name`.
pub fn join_path(base: &str, name: &str) -> (r: String)
    ensures
        r@ == subpath_spec(base@, name@),
{
    let head = concat_text(base, "\\");
    concat_text(head.as_str(), name)
}

// ---------------------------------------------------------------------------
// Vendor and product identifiers (SYSTEM\ControlSet001\Enum\USB)
// ---------------------------------------------------------------------------

/// What the key `key_name` under `Enum\USB`, whose first subkey is named
/// `usn`, makes of the records. The key name is `VID_xxxx&PID_xxxx...`: the
/// vendor identifier is its first `&`-field, the product identifier its
/// second, except for root hubs, which keep an empty product identifier.
/// A device already listed gets both identifiers; another one is added.
pub open spec fn vid_pid_apply_spec(
    list: Seq<UsbInfoView>,
    key_name: Seq<char>,
    usn: Seq<char>,
) -> StepResult {
    let parts = split_spec(key_name, '&');
    let vid = parts[0];
    let root_hub = contains_spec(vid, "ROOT_HUB"@);
    if !root_hub && parts.len() < 2 {
        Err(RegistryError::MalformedKeyName)
    } else {
        let pid = if root_hub {
            Seq::<char>::empty()
        } else {
            parts[1]
        };
        match find_usn_spec(list, usn) {
            None => Ok(list.push(UsbInfoView { pid: pid, usn: usn, vid: vid, ..empty_info() })),
            Some(p) => Ok(list.update(p, UsbInfoView { pid: pid, vid: vid, ..list[p] })),
        }
    }
}

/// What one subkey of `Enum\USB` makes of the records.
pub open spec fn vid_pid_step(hive: Seq<u8>) -> spec_fn(Seq<UsbInfoView>, Seq<char>) -> StepResult {
    |list: Seq<UsbInfoView>, key_name: Seq<char>|
        match first_subkey_name_at(hive, subpath_spec(CONTROLSET_ENUM_USB@, key_name)) {
            None => Err(RegistryError::UnreadableKey),
            Some(usn) => vid_pid_apply_spec(list, key_name, usn),
        }
}

/// Records the vendor and product identifiers that the key `key_name` under
/// `Enum\USB` gives the device whose serial number is `usn`.
pub fn apply_vid_pid(list: &mut Vec<UsbInfo>, key_name: &String, usn: String) -> (r: Result<
    (),
    RegistryError,
>)
    ensures
        match vid_pid_apply_spec(infos(old(list)@), key_name@, usn@) {
            Ok(l) => r == Ok::<(), RegistryError>(()) && infos(final(list)@) == l,
            Err(e) => r == Err::<(), RegistryError>(e) && final(list)@ == old(list)@,
        },
{
    let parts = split_by_char(key_name.as_str(), '&');
    proof {
        lemma_split_nonempty(key_name@, '&');
    }
    let vid = parts[0].clone();
    let root_hub = contains_text(vid.as_str(), "ROOT_HUB");
    if !root_hub && parts.len() < 2 {
        return Err(RegistryError::MalformedKeyName);
    }
    let pid = if root_hub {
        String::new()
    } else {
        parts[1].clone()
    };
    let found: Option<usize> = find_usn(usn.clone(), list);
    proof {
        lemma_find_usn_first(infos(list@), usn@);
    }
    match found {
        None => {
            let mut tmp = UsbInfo::new();
            tmp.pid = pid;
            tmp.usn = usn;
            tmp.vid = vid;
            let ghost before = infos(list@);
            list.push(tmp);
            assert(infos(list@) =~= before.push(tmp@));
        },
        Some(position) => {
            let ghost before = infos(list@);
            list[position].pid = pid;
            list[position].vid = vid;
            assert(infos(list@) =~= before.update(
                position as int,
                UsbInfoView { pid: pid@, vid: vid@, ..before[position as int] },
            ));
        },
    }
    Ok(())
}


/// The `Enum\USB` pass as far as it gets: records, for every subkey of
/// `SYSTEM\ControlSet001\Enum\USB`, the vendor and product identifiers of
/// the device named by its first subkey, and stops at the first that fails.
fn vid_pid_checked(hive: &[u8], list: &mut Vec<UsbInfo>) -> (r: Result<(), RegistryError>)
    ensures
        match subkey_names_at(hive@, CONTROLSET_ENUM_USB@) {
                None => r == Err::<(), RegistryError>(RegistryError::UnreadableKey) && final(list)@
                    == old(list)@,
                Some(names) => {
                    let (l, failure) = apply_steps(infos(old(list)@), names, vid_pid_step(hive@));
                    infos(final(list)@) == l && r == outcome(failure)
                },
            },
{
    let names = match subkey_names(hive, CONTROLSET_ENUM_USB) {
        Some(names) => names,
        None => return Err(RegistryError::UnreadableKey),
    };
    let ghost items = names.deep_view();
    let ghost start = infos(list@);
    let ghost step = vid_pid_step(hive@);
    let mut i: usize = 0;
    while i < names.len()
        invariant
            i <= names.len(),
            items == names.deep_view(),
                subkey_names_at(hive@, CONTROLSET_ENUM_USB@) == Some(items),
            start == infos(old(list)@),
            step == vid_pid_step(hive@),
            apply_steps(start, items.take(i as int), step) == (infos(list@), None::<RegistryError>),
        decreases names.len() - i,
    {
        proof {
            lemma_apply_steps_next(start, items, step, i as int);
        }
        let path = join_path(CONTROLSET_ENUM_USB, names[i].as_str());
        let usn = match first_subkey_name(hive, path.as_str()) {
            Some(usn) => usn,
            None => {
                proof {
                    lemma_apply_steps_stops(start, items, step, i + 1);
                }
                return Err(RegistryError::UnreadableKey);
            },
        };
        let applied = apply_vid_pid(list, &names[i], usn);
        if let Err(e) = applied {
            proof {
                lemma_apply_steps_stops(start, items, step, i + 1);
            }
            return Err(e);
        }
        i = i + 1;
    }
    assert(items.take(names.len() as int) =~= items);
    Ok(())
}


// ---------------------------------------------------------------------------
// Volume names (SOFTWARE\Microsoft\Windows Portable Devices\Devices)
// ---------------------------------------------------------------------------

/// What the portable-device key `key_name`, whose `FriendlyName` value holds
/// `friendly` (or no string), makes of the records. The key name has
/// `#`-separated fields; when there are more than five, the first `&`-field
/// of the fifth is a serial number, and the device with that serial number
/// gets the friendly name as one more volume name.
pub open spec fn friendly_name_apply_spec(
    list: Seq<UsbInfoView>,
    key_name: Seq<char>,
    friendly: Option<Seq<char>>,
) -> Seq<UsbInfoView> {
    match friendly {
        None => list,
        Some(name) => {
            let parts = split_spec(key_name, '#');
            if parts.len() > 5 {
                let usn = split_spec(parts[4], '&')[0];
                match find_usn_spec(list, usn) {
                    None => list,
                    Some(p) => list.update(
                        p,
                        UsbInfoView { friendly_name: list[p].friendly_name.push(name), ..list[p] },
                    ),
                }
            } else {
                list
            }
        },
    }
}

/// What one portable-device key makes of the records.
pub open spec fn friendly_name_step(hive: Seq<u8>) -> spec_fn(Seq<UsbInfoView>, Seq<char>) -> StepResult {
    |list: Seq<UsbInfoView>, key_name: Seq<char>|
        match string_value_at(
            hive,
            subpath_spec(MICROSOFT_WPD_DEVICES@, key_name),
            "FriendlyName"@,
        ) {
            None => Err(RegistryError::UnreadableKey),
            Some(friendly) => Ok(friendly_name_apply_spec(list, key_name, friendly)),
        }
}

/// Records the friendly name of the portable-device key `key_name` as a
/// volume name of the device it names.
pub fn apply_friendly_name(list: &mut Vec<UsbInfo>, key_name: &String, friendly: Option<String>)
    ensures
        infos(final(list)@) == friendly_name_apply_spec(
            infos(old(list)@),
            key_name@,
            friendly.deep_view(),
        ),
{
    let name = match friendly {
        Some(name) => name,
        None => return ,
    };
    let parts = split_by_char(key_name.as_str(), '#');
    if parts.len() > 5 {
        let usn_fields = split_by_char(parts[4].as_str(), '&');
        proof {
            lemma_split_nonempty(parts[4]@, '&');
        }
        let usn = usn_fields[0].clone();
        let found: Option<usize> = find_usn(usn, list);
        proof {
            lemma_find_usn_first(infos(list@), usn@);
        }
        if let Some(position) = found {
            let ghost before = infos(list@);
            list[position].friendly_name.push(name);
            assert(list[position as int].friendly_name.deep_view() =~= before[position as int].friendly_name.push(name@));
            assert(infos(list@) =~= before.update(
                position as int,
                UsbInfoView {
                    friendly_name: before[position as int].friendly_name.push(name@),
                    ..before[position as int]
                },
            ));
        }
    }
}

/// The portable devices pass as far as it gets: records, for every subkey of
/// `SOFTWARE\Microsoft\Windows Portable Devices\Devices`, its friendly name
/// as a volume name of the device it names, and stops at the first that fails.
fn volume_names_checked(hive: &[u8], list: &mut Vec<UsbInfo>) -> (r: Result<
    (),
    RegistryError,
>)
    ensures
        match subkey_names_at(hive@, MICROSOFT_WPD_DEVICES@) {
                None => r == Err::<(), RegistryError>(RegistryError::UnreadableKey) && final(list)@
                    == old(list)@,
                Some(names) => {
                    let (l, failure) = apply_steps(infos(old(list)@), names, friendly_name_step(hive@));
                    infos(final(list)@) == l && r == outcome(failure)
                },
            },
{
    let names = match subkey_names(hive, MICROSOFT_WPD_DEVICES) {
        Some(names) => names,
        None => return Err(RegistryError::UnreadableKey),
    };
    let ghost items = names.deep_view();
    let ghost start = infos(list@);
    let ghost step = friendly_name_step(hive@);
    let mut i: usize = 0;
    while i < names.len()
        invariant
            i <= names.len(),
            items == names.deep_view(),
                subkey_names_at(hive@, MICROSOFT_WPD_DEVICES@) == Some(items),
            start == infos(old(list)@),
            step == friendly_name_step(hive@),
            apply_steps(start, items.take(i as int), step) == (infos(list@), None::<RegistryError>),
        decreases names.len() - i,
    {
        proof {
            lemma_apply_steps_next(start, items, step, i as int);
        }
        let path = join_path(MICROSOFT_WPD_DEVICES, names[i].as_str());
        let friendly = match string_value(hive, path.as_str(), "FriendlyName") {
            Some(friendly) => friendly,
            None => {
                proof {
                    lemma_apply_steps_stops(start, items, step, i + 1);
                }
                return Err(RegistryError::UnreadableKey);
            },
        };
        apply_friendly_name(list, &names[i], friendly);
        i = i + 1;
    }
    assert(items.take(names.len() as int) =~= items);
    Ok(())
}


// ---------------------------------------------------------------------------
// Storage devices (SYSTEM\ControlSet001\Enum\USBSTOR)
// ---------------------------------------------------------------------------

/// The record that a device class key name such as
/// `Disk&Ven_X&Prod_Y&Rev_Z` starts: its first four `&`-fields are the drive
/// type, vendor, product and revision. `None` where it has fewer fields.
pub open spec fn device_class_spec(key_name: Seq<char>) -> Option<UsbInfoView> {
    let parts = split_spec(key_name, '&');
    if parts.len() < 4 {
        None
    } else {
        Some(
            UsbInfoView {
                drive_type: parts[0],
                vendor: parts[1],
                product: parts[2],
                version: parts[3],
                ..empty_info()
            },
        )
    }
}

/// The serial number that the subkeys of a device class key give a record:
/// the first `&`-field of the last subkey name; none when there is no subkey.
pub open spec fn serial_number_spec(info: UsbInfoView, serial_keys: Seq<Seq<char>>) -> UsbInfoView {
    if serial_keys.len() == 0 {
        info
    } else {
        UsbInfoView { usn: split_spec(serial_keys.last(), '&')[0], ..info }
    }
}

/// Sets the serial number of `usbinfo` from the names of the subkeys of its
/// device class key.
pub fn get_usb_unique_serial_number(serial_keys: &Vec<String>, usbinfo: &mut UsbInfo)
    ensures
        final(usbinfo)@ == serial_number_spec(old(usbinfo)@, serial_keys.deep_view()),
{
    let mut i: usize = 0;
    while i < serial_keys.len()
        invariant
            i <= serial_keys.len(),
            usbinfo@ == serial_number_spec(old(usbinfo)@, serial_keys.deep_view().take(i as int)),
        decreases serial_keys.len() - i,
    {
        let fields = split_by_char(serial_keys[i].as_str(), '&');
        proof {
            lemma_split_nonempty(serial_keys[i as int]@, '&');
            assert(serial_keys.deep_view().take(i + 1).last() == serial_keys[i as int]@);
        }
        usbinfo.usn = fields[0].clone();
        i = i + 1;
    }
    assert(serial_keys.deep_view().take(serial_keys.len() as int) =~= serial_keys.deep_view());
}

/// The text of the timestamp stored as the first value of the key at `path`.
pub open spec fn timestamp_at_spec(hive: Seq<u8>, path: Seq<char>) -> Result<Seq<char>, RegistryError> {
    match first_value_data_at(hive, path) {
        None => Err(RegistryError::UnreadableKey),
        Some(data) => match timestamp_text_spec(data) {
            None => Err(RegistryError::MalformedTimestamp),
            Some(text) => Ok(text),
        },
    }
}

/// Reads the timestamp stored as the first value of the key at `path`, or
/// gives why it cannot be read.
fn read_timestamp(hive: &[u8], path: &String) -> (r: Result<String, RegistryError>)
    ensures
        match timestamp_at_spec(hive@, path@) {
            Ok(text) => r matches Ok(t) && t@ == text,
            Err(e) => r == Err::<String, RegistryError>(e),
        },
{
    let data = match first_value_data(hive, path.as_str()) {
        Some(data) => data,
        None => return Err(RegistryError::UnreadableKey),
    };
    match extract_timestamp(data) {
        Some(text) => Ok(text),
        None => Err(RegistryError::MalformedTimestamp),
    }
}

/// The record with its first install, last connection and last removal
/// times read from under the device key `usn_path`, in that order; at the
/// first time that cannot be read, the record as far as it got and the
/// failure.
pub open spec fn all_timestamps_spec(hive: Seq<u8>, usn_path: Seq<char>, info: UsbInfoView) -> (
    UsbInfoView,
    Option<RegistryError>,
) {
    match timestamp_at_spec(hive, usn_path + SUFFIX_FIRST_INSTALL@) {
        Err(e) => (info, Some(e)),
        Ok(first) => {
            let info1 = UsbInfoView { first_install: first, ..info };
            match timestamp_at_spec(hive, usn_path + SUFFIX_LAST_CONNECTED@) {
                Err(e) => (info1, Some(e)),
                Ok(connected) => {
                    let info2 = UsbInfoView { last_connected: connected, ..info1 };
                    match timestamp_at_spec(hive, usn_path + SUFFIX_LAST_REMOVED@) {
                        Err(e) => (info2, Some(e)),
                        Ok(removed) => (UsbInfoView { last_removed: removed, ..info2 }, None),
                    }
                },
            }
        },
    }
}

/// Reads the first install, last connection and last removal times of the
/// device whose key is `path_to_get_usn` into `usbinfo`, stopping at the
/// first that cannot be read.
fn all_timestamps_checked(hive: &[u8], path_to_get_usn: String, usbinfo: &mut UsbInfo) -> (r:
    Result<(), RegistryError>)
    ensures
        ({
            let (info, failure) = all_timestamps_spec(hive@, path_to_get_usn@, old(usbinfo)@);
            final(usbinfo)@ == info && r == outcome(failure)
        }),
{
    let first_install_path = concat_text(path_to_get_usn.as_str(), SUFFIX_FIRST_INSTALL);
    usbinfo.first_install = read_timestamp(hive, &first_install_path)?;
    let last_connected_path = concat_text(path_to_get_usn.as_str(), SUFFIX_LAST_CONNECTED);
    usbinfo.last_connected = read_timestamp(hive, &last_connected_path)?;
    let last_removal_path = concat_text(path_to_get_usn.as_str(), SUFFIX_LAST_REMOVED);
    usbinfo.last_removed = read_timestamp(hive, &last_removal_path)?;
    Ok(())
}

/// The record that the device class key `key_name` under `Enum\USBSTOR`
/// gives, or why it cannot be made.
pub open spec fn device_record_spec(hive: Seq<u8>, key_name: Seq<char>) -> Result<UsbInfoView, RegistryError> {
    match device_class_spec(key_name) {
        None => Err(RegistryError::MalformedKeyName),
        Some(info) => {
            let path = subpath_spec(CONTROLSET_ENUM_USBSTOR@, key_name);
            match subkey_names_at(hive, path) {
                None => Err(RegistryError::UnreadableKey),
                Some(serial_keys) => {
                    let info = serial_number_spec(info, serial_keys);
                    let usn_path = subpath_spec(path, info.usn) + "&0"@;
                    let (info, failure) = all_timestamps_spec(hive, usn_path, info);
                    match failure {
                        Some(e) => Err(e),
                        None => Ok(info),
                    }
                },
            }
        },
    }
}

/// What one subkey of `Enum\USBSTOR` makes of the records: one more record.
pub open spec fn vendor_product_version_step(hive: Seq<u8>) -> spec_fn(Seq<UsbInfoView>, Seq<char>) -> StepResult {
    |list: Seq<UsbInfoView>, key_name: Seq<char>|
        match device_record_spec(hive, key_name) {
            Err(e) => Err(e),
            Ok(info) => Ok(list.push(info)),
        }
}

/// Makes the record of the device class key `key_name` under `Enum\USBSTOR`.
pub fn read_device_record(hive: &[u8], key_name: &String) -> (r: Result<UsbInfo, RegistryError>)
    ensures
        match device_record_spec(hive@, key_name@) {
            Ok(info) => r matches Ok(u) && u@ == info,
            Err(e) => r matches Err(x) && x == e,
        },
{
    let fields = split_by_char(key_name.as_str(), '&');
    if fields.len() < 4 {
        return Err(RegistryError::MalformedKeyName);
    }
    let mut tmp = UsbInfo::new();
    tmp.drive_type = fields[0].clone();
    tmp.vendor = fields[1].clone();
    tmp.product = fields[2].clone();
    tmp.version = fields[3].clone();
    let path_to_device_class_id = join_path(CONTROLSET_ENUM_USBSTOR, key_name.as_str());
    let serial_keys = match subkey_names(hive, path_to_device_class_id.as_str()) {
        Some(serial_keys) => serial_keys,
        None => return Err(RegistryError::UnreadableKey),
    };
    get_usb_unique_serial_number(&serial_keys, &mut tmp);
    let usn_key = join_path(path_to_device_class_id.as_str(), tmp.usn.as_str());
    let path_usn = concat_text(usn_key.as_str(), "&0");
    all_timestamps_checked(hive, path_usn, &mut tmp)?;
    Ok(tmp)
}

/// The `Enum\USBSTOR` pass as far as it gets: adds one record for every
/// subkey of `SYSTEM\ControlSet001\Enum\USBSTOR`, and stops at the first
/// whose record cannot be made.
fn vendor_product_version_checked(hive: &[u8], list: &mut Vec<UsbInfo>) -> (r: Result<
    (),
    RegistryError,
>)
    ensures
        match subkey_names_at(hive@, CONTROLSET_ENUM_USBSTOR@) {
                None => r == Err::<(), RegistryError>(RegistryError::UnreadableKey) && final(list)@
                    == old(list)@,
                Some(names) => {
                    let (l, failure) = apply_steps(
                        infos(old(list)@),
                        names,
                        vendor_product_version_step(hive@),
                    );
                    infos(final(list)@) == l && r == outcome(failure)
                },
            },
{
    let names = match subkey_names(hive, CONTROLSET_ENUM_USBSTOR) {
        Some(names) => names,
        None => return Err(RegistryError::UnreadableKey),
    };
    let ghost items = names.deep_view();
    let ghost start = infos(list@);
    let ghost step = vendor_product_version_step(hive@);
    let mut i: usize = 0;
    while i < names.len()
        invariant
            i <= names.len(),
            items == names.deep_view(),
                subkey_names_at(hive@, CONTROLSET_ENUM_USBSTOR@) == Some(items),
            start == infos(old(list)@),
            step == vendor_product_version_step(hive@),
            apply_steps(start, items.take(i as int), step) == (infos(list@), None::<RegistryError>),
        decreases names.len() - i,
    {
        proof {
            lemma_apply_steps_next(start, items, step, i as int);
        }
        let record = match read_device_record(hive, &names[i]) {
            Ok(record) => record,
            Err(e) => {
                proof {
                    lemma_apply_steps_stops(start, items, step, i + 1);
                }
                return Err(e);
            },
        };
        let ghost before = infos(list@);
        list.push(record);
        assert(infos(list@) =~= before.push(record@));
        i = i + 1;
    }
    assert(items.take(names.len() as int) =~= items);
    Ok(())
}


// ---------------------------------------------------------------------------
// Mounted volumes (SYSTEM\MountedDevices)
// ---------------------------------------------------------------------------

/// The serial number named by the data of a mounted-device value. Data that
/// is UTF-8 text with more than four `&`-fields names, in the `#`-separated
/// second part of its fourth field, the serial number, read byte by byte
/// with zero bytes left out; other data names the empty serial number.
/// `None` where the fourth field has no `#`.
pub open spec fn mounted_usn_spec(data: Seq<u8>) -> Option<Seq<char>> {
    if valid_utf8(data) {
        let parts = split_spec(decode_utf8(data), '&');
        if parts.len() > 4 {
            let pieces = split_spec(parts[3], '#');
            if pieces.len() < 2 {
                None
            } else {
                Some(nonzero_bytes_as_chars(encode_utf8(pieces[1])))
            }
        } else {
            Some(Seq::<char>::empty())
        }
    } else {
        Some(Seq::<char>::empty())
    }
}

/// The serial number named by the data of a mounted-device value.
pub fn mounted_usn(data: &Vec<u8>) -> (r: Option<String>)
    ensures
        r.deep_view() == mounted_usn_spec(data@),
{
    let text = match text_from_utf8(data.as_slice()) {
        Some(text) => text,
        None => return Some(String::new()),
    };
    let parts = split_by_char(text.as_str(), '&');
    if parts.len() > 4 {
        let pieces = split_by_char(parts[3].as_str(), '#');
        if pieces.len() < 2 {
            None
        } else {
            Some(nonzero_bytes_text(pieces[1].as_str()))
        }
    } else {
        Some(String::new())
    }
}

/// The UTF-8 code of `{`.
pub const OPEN_BRACE: u8 = 0x7B;

/// The length in bytes of a volume GUID written in braces.
pub const GUID_TEXT_LEN: usize = 38;

/// What the mounted-device value `value_name` with data `data` makes of the
/// records. When the data names the serial number of a listed device: a
/// `\DosDevices\X:` value gives that device its last three bytes (the drive
/// letter) as one more volume name; another value gives the device, as its
/// volume GUID, the 38 bytes from the first `{` of its name, and is passed
/// over when its name has no `{`.
pub open spec fn mounted_device_apply_spec(
    list: Seq<UsbInfoView>,
    value_name: Seq<char>,
    data: Seq<u8>,
) -> StepResult {
    match mounted_usn_spec(data) {
        None => Err(RegistryError::MalformedDeviceRecord),
        Some(usn) => match find_usn_spec(list, usn) {
            None => Ok(list),
            Some(p) => {
                let bytes = encode_utf8(value_name);
                if contains_spec(value_name, "DosDevices"@) {
                    match byte_slice_spec(value_name, bytes.len() - 3, bytes.len() as int) {
                        None => Err(RegistryError::MalformedValueName),
                        Some(letter) => Ok(
                            list.update(
                                p,
                                UsbInfoView {
                                    friendly_name: list[p].friendly_name.push(letter),
                                    ..list[p]
                                },
                            ),
                        ),
                    }
                } else {
                    match first_byte_from(bytes, OPEN_BRACE, 0) {
                        None => Ok(list),
                        Some(b) => match byte_slice_spec(value_name, b, b + GUID_TEXT_LEN) {
                            None => Err(RegistryError::MalformedValueName),
                            Some(guid) => Ok(
                                list.update(p, UsbInfoView { guid: guid, ..list[p] }),
                            ),
                        },
                    }
                }
            },
        },
    }
}

/// What one value of `MountedDevices`, as its name and data, makes of the
/// records.
pub open spec fn mounted_device_step() -> spec_fn(Seq<UsbInfoView>, (Seq<char>, Seq<u8>)) -> StepResult {
    |list: Seq<UsbInfoView>, value: (Seq<char>, Seq<u8>)|
        mounted_device_apply_spec(list, value.0, value.1)
}

/// Records what the mounted-device value `value_name` with data `data`
/// tells of the device it names: a drive letter or a volume GUID.
pub fn apply_mounted_device(list: &mut Vec<UsbInfo>, value_name: &String, data: &Vec<u8>) -> (r:
    Result<(), RegistryError>)
    ensures
        match mounted_device_apply_spec(infos(old(list)@), value_name@, data@) {
            Ok(l) => r == Ok::<(), RegistryError>(()) && infos(final(list)@) == l,
            Err(e) => r == Err::<(), RegistryError>(e) && final(list)@ == old(list)@,
        },
{
    let usn = match mounted_usn(data) {
        Some(usn) => usn,
        None => return Err(RegistryError::MalformedDeviceRecord),
    };
    let found: Option<usize> = find_usn(usn, list);
    proof {
        lemma_find_usn_first(infos(list@), usn@);
    }
    let position: usize = match found {
        Some(position) => position,
        None => return Ok(()),
    };
    let bytes = value_name.as_str().as_bytes();
    let len: usize = bytes.len();
    let ghost before = infos(list@);
    if contains_text(value_name.as_str(), "DosDevices") {
        if len < 3 {
            return Err(RegistryError::MalformedValueName);
        }
        let letter = match slice_by_bytes(value_name.as_str(), len - 3, len) {
            Some(letter) => letter,
            None => return Err(RegistryError::MalformedValueName),
        };
        list[position].friendly_name.push(letter);
        assert(list[position as int].friendly_name.deep_view() =~= before[position as int].friendly_name.push(letter@));
        assert(infos(list@) =~= before.update(
            position as int,
            UsbInfoView {
                friendly_name: before[position as int].friendly_name.push(letter@),
                ..before[position as int]
            },
        ));
    } else {
        let start: usize = match find_byte(bytes, OPEN_BRACE) {
            Some(start) => start,
            None => return Ok(()),
        };
        if start > usize::MAX - GUID_TEXT_LEN {
            return Err(RegistryError::MalformedValueName);
        }
        let guid = match slice_by_bytes(value_name.as_str(), start, start + GUID_TEXT_LEN) {
            Some(guid) => guid,
            None => return Err(RegistryError::MalformedValueName),
        };
        list[position].guid = guid;
        assert(infos(list@) =~= before.update(
            position as int,
            UsbInfoView { guid: guid@, ..before[position as int] },
        ));
    }
    Ok(())
}

/// The bytes `DMIO:ID:` that start the record of a GPT partition.
pub open spec fn gpt_marker() -> Seq<u8> {
    seq![0x44u8, 0x4du8, 0x49u8, 0x4fu8, 0x3au8, 0x49u8, 0x44u8, 0x3au8]
}

/// `pat` occurs in `b` starting at index `i`.
pub open spec fn bytes_occur_at(b: Seq<u8>, pat: Seq<u8>, i: int) -> bool {
    0 <= i && i + pat.len() <= b.len() && b.subrange(i, i + pat.len()) == pat
}

/// The data of a mounted-device value is not UTF-8 text and holds the bytes
/// `DMIO:ID:`: the value describes a GPT partition, which is reported.
pub open spec fn gpt_signature_spec(data: Seq<u8>) -> bool {
    !valid_utf8(data) && exists|i: int| bytes_occur_at(data, gpt_marker(), i)
}

/// Whether the data of a mounted-device value marks a GPT partition.
pub fn gpt_partition_signature(data: &Vec<u8>) -> (r: bool)
    ensures
        r == gpt_signature_spec(data@),
{
    if text_from_utf8(data.as_slice()).is_some() {
        return false;
    }
    let marker: [u8; 8] = [0x44, 0x4d, 0x49, 0x4f, 0x3a, 0x49, 0x44, 0x3a];
    assert(marker@ =~= gpt_marker());
    if data.len() < 8 {
        return false;
    }
    let end: usize = data.len() - 7;
    let mut i: usize = 0;
    while i < end
        invariant
            i <= end,
            end == data.len() - 7,
            !valid_utf8(data@),
            marker@ == gpt_marker(),
            forall|k: int| 0 <= k < i ==> !bytes_occur_at(data@, gpt_marker(), k),
        decreases end - i,
    {
        let mut j: usize = 0;
        let mut same: bool = true;
        while j < 8
            invariant
                j <= 8,
                i < end,
                end == data.len() - 7,
                marker@ == gpt_marker(),
                same <==> forall|t: int| 0 <= t < j ==> data@[i + t] == marker@[t],
            decreases 8 - j,
        {
            if data[i + j] != marker[j] {
                same = false;
            }
            j = j + 1;
        }
        if same {
            assert(data@.subrange(i as int, i + 8) =~= gpt_marker());
            assert(bytes_occur_at(data@, gpt_marker(), i as int));
            return true;
        }
        assert(!bytes_occur_at(data@, gpt_marker(), i as int)) by {
            let t = choose|t: int| 0 <= t < 8 && data@[i + t] != marker@[t];
            assert(data@.subrange(i as int, i + 8)[t] != gpt_marker()[t]);
        }
        i = i + 1;
    }
    assert forall|k: int| !bytes_occur_at(data@, gpt_marker(), k) by {
        if 0 <= k && k + 8 <= data@.len() {
            assert(k < end);
        }
    }
    false
}

/// How many of `values` mark a GPT partition.
pub open spec fn gpt_count(values: Seq<(Seq<char>, Seq<u8>)>) -> nat
    decreases values.len(),
{
    if values.len() == 0 {
        0
    } else {
        gpt_count(values.drop_last()) + if gpt_signature_spec(values.last().1) {
            1nat
        } else {
            0nat
        }
    }
}

/// How many items a walk looks at: all of them, or those up to and with the
/// failing one.
pub open spec fn steps_taken<T>(
    list: Seq<UsbInfoView>,
    items: Seq<T>,
    step: spec_fn(Seq<UsbInfoView>, T) -> StepResult,
) -> nat
    decreases items.len(),
{
    if items.len() == 0 {
        0
    } else if apply_steps(list, items.drop_last(), step).1 is Some {
        steps_taken(list, items.drop_last(), step)
    } else {
        items.len()
    }
}

/// Once a walk has failed, the items after the failing one are not looked at.
proof fn lemma_steps_taken_stops<T>(
    list: Seq<UsbInfoView>,
    items: Seq<T>,
    step: spec_fn(Seq<UsbInfoView>, T) -> StepResult,
    i: int,
)
    requires
        0 <= i <= items.len(),
        apply_steps(list, items.take(i), step).1 is Some,
    ensures
        steps_taken(list, items, step) == steps_taken(list, items.take(i), step),
    decreases items.len(),
{
    if i == items.len() {
        assert(items.take(i) =~= items);
    } else {
        assert(items.drop_last().take(i) =~= items.take(i));
        lemma_apply_steps_stops(list, items.drop_last(), step, i);
        lemma_steps_taken_stops(list, items.drop_last(), step, i);
    }
}

/// The `MountedDevices` pass as far as it gets: records, for every value of
/// `SYSTEM\MountedDevices`, the drive letter or volume GUID of the device it
/// names, stopping at the first that fails, and counts in `gpt_signatures`
/// the values looked at that mark a GPT partition.
fn volume_guids_checked(hive: &[u8], list: &mut Vec<UsbInfo>, gpt_signatures: &mut usize) -> (r:
    Result<(), RegistryError>)
    ensures
        match values_at(hive@, MOUNTED_DEVICES@) {
            None => r == Err::<(), RegistryError>(RegistryError::UnreadableKey) && final(list)@
                == old(list)@ && *final(gpt_signatures) == 0,
            Some(values) => {
                let (l, failure) = apply_steps(infos(old(list)@), values, mounted_device_step());
                &&& infos(final(list)@) == l
                &&& r == outcome(failure)
                &&& *final(gpt_signatures) == gpt_count(
                    values.take(steps_taken(infos(old(list)@), values, mounted_device_step()) as int),
                )
            },
        },
{
    *gpt_signatures = 0;
    let values = match values(hive, MOUNTED_DEVICES) {
        Some(values) => values,
        None => return Err(RegistryError::UnreadableKey),
    };
    let ghost items = values.deep_view();
    let ghost start = infos(list@);
    let ghost step = mounted_device_step();
    let mut i: usize = 0;
    proof {
        assert(items.take(0) =~= Seq::<(Seq<char>, Seq<u8>)>::empty());
    }
    while i < values.len()
        invariant
            i <= values.len(),
            items == values.deep_view(),
                values_at(hive@, MOUNTED_DEVICES@) == Some(items),
            start == infos(old(list)@),
            step == mounted_device_step(),
            apply_steps(start, items.take(i as int), step) == (infos(list@), None::<RegistryError>),
            *gpt_signatures == gpt_count(items.take(i as int)),
            *gpt_signatures <= i,
        decreases values.len() - i,
    {
        proof {
            lemma_apply_steps_next(start, items, step, i as int);
            assert(items[i as int].0 == values[i as int].0@);
            assert(items[i as int].1 == values[i as int].1@);
            assert(items.take(i + 1).drop_last() =~= items.take(i as int));
        }
        if gpt_partition_signature(&values[i].1) {
            *gpt_signatures = *gpt_signatures + 1;
        }
        let applied = apply_mounted_device(list, &values[i].0, &values[i].1);
        if let Err(e) = applied {
            proof {
                lemma_apply_steps_stops(start, items, step, i + 1);
                lemma_steps_taken_stops(start, items, step, i + 1);
                assert(steps_taken(start, items.take(i + 1), step) == i + 1);
            }
            return Err(e);
        }
        i = i + 1;
    }
    proof {
        assert(items.take(values.len() as int) =~= items);
        assert(steps_taken(start, items, step) == items.len());
    }
    Ok(())
}


// ---------------------------------------------------------------------------
// The passes. Each reads one hive and stops the program where a key or value
// it needs is missing or malformed: the function named after the pass
// requires that this does not happen, and its `try_` companion finds out
// first, on a copy, and leaves the records as they were where it would.
// ---------------------------------------------------------------------------

/// The records after the `Enum\USB` pass and the reason it stops, if it does.
pub open spec fn vid_pid_pass(hive: Seq<u8>, list: Seq<UsbInfoView>) -> (Seq<UsbInfoView>, Option<RegistryError>) {
    match subkey_names_at(hive, CONTROLSET_ENUM_USB@) {
        None => (list, Some(RegistryError::UnreadableKey)),
        Some(names) => apply_steps(list, names, vid_pid_step(hive)),
    }
}

/// Sets the vendor and product ids of the records from the subkeys of
/// `SYSTEM\ControlSet001\Enum\USB`, adding a record for each device that has
/// none yet.
pub fn get_vid_pid(hive: &[u8], list: &mut Vec<UsbInfo>)
    requires
        vid_pid_pass(hive@, infos(old(list)@)).1 is None,
    ensures
        infos(final(list)@) == vid_pid_pass(hive@, infos(old(list)@)).0,
{
    let r = vid_pid_checked(hive, list);
    assert(r is Ok);
}

/// [`get_vid_pid`] where it can run; otherwise the reason, with the records
/// unchanged.
pub fn try_get_vid_pid(hive: &[u8], list: &mut Vec<UsbInfo>) -> (r: Result<(), RegistryError>)
    ensures
        r == outcome(vid_pid_pass(hive@, infos(old(list)@)).1),
        r is Ok ==> infos(final(list)@) == vid_pid_pass(hive@, infos(old(list)@)).0,
        r is Err ==> final(list)@ == old(list)@,
{
    let mut trial = copy_infos(list);
    match vid_pid_checked(hive, &mut trial) {
        Ok(()) => {
            get_vid_pid(hive, list);
            Ok(())
        },
        Err(e) => Err(e),
    }
}

/// The records after the portable devices pass and the reason it stops, if
/// it does.
pub open spec fn volume_names_pass(hive: Seq<u8>, list: Seq<UsbInfoView>) -> (Seq<UsbInfoView>, Option<RegistryError>) {
    match subkey_names_at(hive, MICROSOFT_WPD_DEVICES@) {
        None => (list, Some(RegistryError::UnreadableKey)),
        Some(names) => apply_steps(list, names, friendly_name_step(hive)),
    }
}

/// Adds to the records the volume names found under
/// `SOFTWARE\Microsoft\Windows Portable Devices\Devices`.
pub fn get_volume_name_drive_letter(hive: &[u8], list: &mut Vec<UsbInfo>)
    requires
        volume_names_pass(hive@, infos(old(list)@)).1 is None,
    ensures
        infos(final(list)@) == volume_names_pass(hive@, infos(old(list)@)).0,
{
    let r = volume_names_checked(hive, list);
    assert(r is Ok);
}

/// [`get_volume_name_drive_letter`] where it can run; otherwise the reason,
/// with the records unchanged.
pub fn try_get_volume_name_drive_letter(hive: &[u8], list: &mut Vec<UsbInfo>) -> (r: Result<
    (),
    RegistryError,
>)
    ensures
        r == outcome(volume_names_pass(hive@, infos(old(list)@)).1),
        r is Ok ==> infos(final(list)@) == volume_names_pass(hive@, infos(old(list)@)).0,
        r is Err ==> final(list)@ == old(list)@,
{
    let mut trial = copy_infos(list);
    match volume_names_checked(hive, &mut trial) {
        Ok(()) => {
            get_volume_name_drive_letter(hive, list);
            Ok(())
        },
        Err(e) => Err(e),
    }
}

/// The records after the `Enum\USBSTOR` pass and the reason it stops, if it
/// does.
pub open spec fn vendor_pass(hive: Seq<u8>, list: Seq<UsbInfoView>) -> (Seq<UsbInfoView>, Option<RegistryError>) {
    match subkey_names_at(hive, CONTROLSET_ENUM_USBSTOR@) {
        None => (list, Some(RegistryError::UnreadableKey)),
        Some(names) => apply_steps(list, names, vendor_product_version_step(hive)),
    }
}

/// Adds one record for every subkey of `SYSTEM\ControlSet001\Enum\USBSTOR`:
/// drive type, vendor, product, revision, serial number and times.
pub fn get_vendor_product_version(hive: &[u8], list: &mut Vec<UsbInfo>)
    requires
        vendor_pass(hive@, infos(old(list)@)).1 is None,
    ensures
        infos(final(list)@) == vendor_pass(hive@, infos(old(list)@)).0,
{
    let r = vendor_product_version_checked(hive, list);
    assert(r is Ok);
}

/// [`get_vendor_product_version`] where it can run; otherwise the reason,
/// with the records unchanged.
pub fn try_get_vendor_product_version(hive: &[u8], list: &mut Vec<UsbInfo>) -> (r: Result<
    (),
    RegistryError,
>)
    ensures
        r == outcome(vendor_pass(hive@, infos(old(list)@)).1),
        r is Ok ==> infos(final(list)@) == vendor_pass(hive@, infos(old(list)@)).0,
        r is Err ==> final(list)@ == old(list)@,
{
    let mut trial = copy_infos(list);
    match vendor_product_version_checked(hive, &mut trial) {
        Ok(()) => {
            get_vendor_product_version(hive, list);
            Ok(())
        },
        Err(e) => Err(e),
    }
}

/// The records after the `MountedDevices` pass and the reason it stops, if
/// it does.
pub open spec fn volume_guids_pass(hive: Seq<u8>, list: Seq<UsbInfoView>) -> (Seq<UsbInfoView>, Option<RegistryError>) {
    match values_at(hive, MOUNTED_DEVICES@) {
        None => (list, Some(RegistryError::UnreadableKey)),
        Some(values) => apply_steps(list, values, mounted_device_step()),
    }
}

/// How many GPT partition values the `MountedDevices` pass looks at, up to
/// and with the value at which it stops.
pub open spec fn gpt_notices(hive: Seq<u8>, list: Seq<UsbInfoView>) -> nat {
    match values_at(hive, MOUNTED_DEVICES@) {
        None => 0,
        Some(values) => gpt_count(values.take(steps_taken(list, values, mounted_device_step()) as int)),
    }
}

/// Records, for every value of `SYSTEM\MountedDevices`, the drive letter or
/// volume GUID of the device it names, and counts in `gpt_signatures` the
/// values that mark a GPT partition.
pub fn get_volume_guid(hive: &[u8], list: &mut Vec<UsbInfo>, gpt_signatures: &mut usize)
    requires
        volume_guids_pass(hive@, infos(old(list)@)).1 is None,
    ensures
        infos(final(list)@) == volume_guids_pass(hive@, infos(old(list)@)).0,
        *final(gpt_signatures) == gpt_notices(hive@, infos(old(list)@)),
{
    let r = volume_guids_checked(hive, list, gpt_signatures);
    assert(r is Ok);
}

/// [`get_volume_guid`] where it can run; otherwise the reason, with the
/// records unchanged. Either way, `gpt_signatures` counts the GPT partition
/// values looked at.
pub fn try_get_volume_guid(hive: &[u8], list: &mut Vec<UsbInfo>, gpt_signatures: &mut usize) -> (r:
    Result<(), RegistryError>)
    ensures
        r == outcome(volume_guids_pass(hive@, infos(old(list)@)).1),
        r is Ok ==> infos(final(list)@) == volume_guids_pass(hive@, infos(old(list)@)).0,
        r is Err ==> final(list)@ == old(list)@,
        *final(gpt_signatures) == gpt_notices(hive@, infos(old(list)@)),
{
    let mut trial = copy_infos(list);
    match volume_guids_checked(hive, &mut trial, gpt_signatures) {
        Ok(()) => {
            get_volume_guid(hive, list, gpt_signatures);
            Ok(())
        },
        Err(e) => Err(e),
    }
}

/// Reads the timestamp stored as the first value of the key at `path`.
pub fn timestamp_at(hive: &[u8], path: &String) -> (text: String)
    requires
        timestamp_at_spec(hive@, path@) is Ok,
    ensures
        timestamp_at_spec(hive@, path@) == Ok::<Seq<char>, RegistryError>(text@),
{
    let r = read_timestamp(hive, path);
    assert(r is Ok);
    match r {
        Ok(text) => text,
        Err(_) => String::new(),
    }
}

/// [`timestamp_at`] where the timestamp can be read; otherwise the reason.
pub fn try_timestamp_at(hive: &[u8], path: &String) -> (r: Result<String, RegistryError>)
    ensures
        match timestamp_at_spec(hive@, path@) {
            Ok(text) => r matches Ok(t) && t@ == text,
            Err(e) => r == Err::<String, RegistryError>(e),
        },
{
    match read_timestamp(hive, path) {
        Ok(_) => Ok(timestamp_at(hive, path)),
        Err(e) => Err(e),
    }
}

/// Reads the first install, last connection and last removal times of the
/// device whose key is `path_to_get_usn` into `usbinfo`.
pub fn get_all_timestamps(hive: &[u8], path_to_get_usn: String, usbinfo: &mut UsbInfo)
    requires
        all_timestamps_spec(hive@, path_to_get_usn@, old(usbinfo)@).1 is None,
    ensures
        final(usbinfo)@ == all_timestamps_spec(hive@, path_to_get_usn@, old(usbinfo)@).0,
{
    let r = all_timestamps_checked(hive, path_to_get_usn, usbinfo);
    assert(r is Ok);
}

/// [`get_all_timestamps`] where every time can be read; otherwise the
/// reason, with the record unchanged.
pub fn try_get_all_timestamps(hive: &[u8], path_to_get_usn: String, usbinfo: &mut UsbInfo) -> (r:
    Result<(), RegistryError>)
    ensures
        r == outcome(
            all_timestamps_spec(hive@, path_to_get_usn@, old(usbinfo)@).1,
        ),
        r is Ok ==> final(usbinfo)@ == all_timestamps_spec(hive@, path_to_get_usn@, old(usbinfo)@).0,
        r is Err ==> final(usbinfo)@ == old(usbinfo)@,
{
    let mut trial = usbinfo.duplicate();
    match all_timestamps_checked(hive, path_to_get_usn.clone(), &mut trial) {
        Ok(()) => {
            get_all_timestamps(hive, path_to_get_usn, usbinfo);
            Ok(())
        },
        Err(e) => Err(e),
    }
}

} // verus!
