//! Reading keys and values of a registry hive, given as the bytes of the
//! hive file. Every read parses the hive anew with the `nt_hive` crate and
//! follows a backslash-separated path from the root key.

use vstd::prelude::*;
use nt_hive::Hive;
use crate::hive_check::{path_safe, check_path};

verus! {

/// Why an extraction stopped.
#[derive(Debug, Clone, Copy, PartialEq, Eq, Structural)]
pub enum RegistryError {
    /// A key or value that the extraction reads is missing, or the hive
    /// cannot be read there (also where `nt_hive` would panic on the way:
    /// see `hive_check`).
    UnreadableKey,
    /// A key name has fewer separated fields than the extraction needs.
    MalformedKeyName,
    /// A mounted-device record has a device field without a `#`-separated
    /// serial number.
    MalformedDeviceRecord,
    /// A timestamp value is not eight bytes long, or counts more nanoseconds
    /// than 64 bits hold.
    MalformedTimestamp,
    /// A value name is too short for the piece that is taken of it, or the
    /// piece would cut a character in two.
    MalformedValueName,
}

/// Suffix of a device key that holds its first install time.
pub const SUFFIX_FIRST_INSTALL: &'static str = "\\Properties\\{83da6326-97a6-4088-9453-a1923f573b29}\\0064";
/// Suffix of a device key that holds its last connection time.
pub const SUFFIX_LAST_CONNECTED: &'static str = "\\Properties\\{83da6326-97a6-4088-9453-a1923f573b29}\\0066";
/// Suffix of a device key that holds its last removal time.
pub const SUFFIX_LAST_REMOVED: &'static str = "\\Properties\\{83da6326-97a6-4088-9453-a1923f573b29}\\0067";
/// Portable devices, in the `SOFTWARE` hive.
pub const MICROSOFT_WPD_DEVICES: &'static str = "Microsoft\\Windows Portable Devices\\Devices";
/// USB storage devices, in the `SYSTEM` hive.
pub const CONTROLSET_ENUM_USBSTOR: &'static str = "ControlSet001\\Enum\\USBSTOR";
/// Mounted volumes, in the `SYSTEM` hive.
pub const MOUNTED_DEVICES: &'static str = "MountedDevices";
/// USB devices, in the `SYSTEM` hive.
pub const CONTROLSET_ENUM_USB: &'static str = "ControlSet001\\Enum\\USB";

/// The names of the subkeys of the key at `path` in the hive `hive`, or
/// `None` where the hive, the key, its subkey list or a name cannot be read.
pub uninterp spec fn hive_subkey_names(hive: Seq<u8>, path: Seq<char>) -> Option<Seq<Seq<char>>>;

/// The name of the first subkey of the key at `path`, or `None` where the
/// hive or the key cannot be read or the key has no subkey.
pub uninterp spec fn hive_first_subkey_name(hive: Seq<u8>, path: Seq<char>) -> Option<Seq<char>>;

/// The string data of the value `name` of the key at `path`: `None` where
/// the hive, the key or the value cannot be read, `Some(None)` where the
/// value holds no string or its data cannot be read.
pub uninterp spec fn hive_string_value(hive: Seq<u8>, path: Seq<char>, name: Seq<char>) -> Option<
    Option<Seq<char>>,
>;

/// The values of the key at `path`, each as its name and its data bytes, in
/// the hive's order; `None` where any of them cannot be read.
pub uninterp spec fn hive_values(hive: Seq<u8>, path: Seq<char>) -> Option<Seq<(Seq<char>, Seq<u8>)>>;

/// Reads with `nt_hive` (`Hive::new`, `root_key_node`, `subpath`, `subkeys`,
/// then `name` and `to_string_checked` of each subkey). Only for hives that
/// `path_safe` admits with `path`: on others `nt_hive` may panic. Claimed: the result
/// is `hive_subkey_names(hive, path)`, a function of the bytes and the path
/// alone; what it is on given bytes is not stated.
#[verifier::external_body]
pub(crate) fn read_subkey_names(hive: &[u8], path: &str) -> (names: Option<Vec<String>>)
    requires
        path_safe(hive@, path@),
    ensures
        names.deep_view() == hive_subkey_names(hive@, path@),
{
    let hive = Hive::new(hive).ok()?;
    let root = hive.root_key_node().ok()?;
    let key = root.subpath(path)?.ok()?;
    let mut names = Vec::new();
    for subkey in key.subkeys()?.ok()? {
        names.push(subkey.ok()?.name().ok()?.to_string_checked()?);
    }
    Some(names)
}

/// Reads with `nt_hive` (`Hive::new`, `root_key_node`, `subpath`, `subkeys`,
/// the first item of that iterator, and its `name` written with `to_string`,
/// which replaces undecodable characters). Only where `path_safe`
/// admits the hive with `path`. Claimed: the result is
/// `hive_first_subkey_name(hive, path)`; its value is not stated.
#[verifier::external_body]
pub(crate) fn read_first_subkey_name(hive: &[u8], path: &str) -> (name: Option<String>)
    requires
        path_safe(hive@, path@),
    ensures
        name.deep_view() == hive_first_subkey_name(hive@, path@),
{
    let hive = Hive::new(hive).ok()?;
    let root = hive.root_key_node().ok()?;
    let key = root.subpath(path)?.ok()?;
    let first = key.subkeys()?.ok()?.next()?.ok()?;
    Some(first.name().ok()?.to_string())
}

/// Reads with `nt_hive` (`Hive::new`, `root_key_node`, `subpath`, `value`,
/// then `string_data`). Only for hives that `path_safe` admits with `path`. Claimed: the result is
/// `hive_string_value(hive, path, name)`; its value is not stated.
#[verifier::external_body]
pub(crate) fn read_string_value(hive: &[u8], path: &str, name: &str) -> (value: Option<Option<String>>)
    requires
        path_safe(hive@, path@),
    ensures
        value.deep_view() == hive_string_value(hive@, path@, name@),
{
    let hive = Hive::new(hive).ok()?;
    let root = hive.root_key_node().ok()?;
    let key = root.subpath(path)?.ok()?;
    let value = key.value(name)?.ok()?;
    Some(value.string_data().ok())
}

/// Reads with `nt_hive` (`Hive::new`, `root_key_node`, `subpath`, `values`,
/// then for each value its `name` written with `to_string` and its
/// `data().into_vec()`). Only for hives that `path_safe` admits with `path`. Claimed: the result is `hive_values(hive, path)`;
/// its value is not stated.
#[verifier::external_body]
pub(crate) fn read_values(hive: &[u8], path: &str) -> (values: Option<Vec<(String, Vec<u8>)>>)
    requires
        path_safe(hive@, path@),
    ensures
        values.deep_view() == hive_values(hive@, path@),
{
    let hive = Hive::new(hive).ok()?;
    let root = hive.root_key_node().ok()?;
    let key = root.subpath(path)?.ok()?;
    let mut values = Vec::new();
    for value in key.values()?.ok()? {
        let value = value.ok()?;
        values.push((value.name().ok()?.to_string(), value.data().ok()?.into_vec().ok()?));
    }
    Some(values)
}


/// The data of the first value of the key at `path`, or `None` where the
/// hive, the key, its value list, its first value or that value's data
/// cannot be read, or the key has no value.
pub uninterp spec fn hive_first_value_data(hive: Seq<u8>, path: Seq<char>) -> Option<Seq<u8>>;

/// Reads with `nt_hive` (`Hive::new`, `root_key_node`, `subpath`, `values`,
/// the first item of that iterator, then `data().into_vec()`). Only for
/// hives that `path_safe` admits with `path`. Claimed: the result is
/// `hive_first_value_data(hive, path)`; its value is not stated.
#[verifier::external_body]
pub(crate) fn read_first_value_data(hive: &[u8], path: &str) -> (data: Option<Vec<u8>>)
    requires
        path_safe(hive@, path@),
    ensures
        match data {
            Some(d) => hive_first_value_data(hive@, path@) == Some(d@),
            None => hive_first_value_data(hive@, path@) is None,
        },
{
    let hive = Hive::new(hive).ok()?;
    let root = hive.root_key_node().ok()?;
    let key = root.subpath(path)?.ok()?;
    let first = key.values()?.ok()?.next()?.ok()?;
    first.data().ok()?.into_vec().ok()
}


// ---------------------------------------------------------------------------
// Guarded reads: each first checks that `nt_hive` can make the read without
// panicking, and gives `None` (the read failed) where it could not.
// ---------------------------------------------------------------------------

/// The subkey names of the key at `path`, where they can be read.
pub open spec fn subkey_names_at(hive: Seq<u8>, path: Seq<char>) -> Option<Seq<Seq<char>>> {
    if path_safe(hive, path) {
        hive_subkey_names(hive, path)
    } else {
        None
    }
}

/// The name of the first subkey of the key at `path`, where it can be read.
pub open spec fn first_subkey_name_at(hive: Seq<u8>, path: Seq<char>) -> Option<Seq<char>> {
    if path_safe(hive, path) {
        hive_first_subkey_name(hive, path)
    } else {
        None
    }
}

/// The string data of the value `name` of the key at `path`, where it can
/// be read.
pub open spec fn string_value_at(hive: Seq<u8>, path: Seq<char>, name: Seq<char>) -> Option<
    Option<Seq<char>>,
> {
    if path_safe(hive, path) {
        hive_string_value(hive, path, name)
    } else {
        None
    }
}

/// The values of the key at `path`, where they can be read.
pub open spec fn values_at(hive: Seq<u8>, path: Seq<char>) -> Option<Seq<(Seq<char>, Seq<u8>)>> {
    if path_safe(hive, path) {
        hive_values(hive, path)
    } else {
        None
    }
}

/// The data of the first value of the key at `path`, where it can be read.
pub open spec fn first_value_data_at(hive: Seq<u8>, path: Seq<char>) -> Option<Seq<u8>> {
    if path_safe(hive, path) {
        hive_first_value_data(hive, path)
    } else {
        None
    }
}

/// Reads the subkey names of the key at `path`.
pub fn subkey_names(hive: &[u8], path: &str) -> (names: Option<Vec<String>>)
    ensures
        names.deep_view() == subkey_names_at(hive@, path@),
{
    if check_path(hive, path) {
        read_subkey_names(hive, path)
    } else {
        None
    }
}

/// Reads the name of the first subkey of the key at `path`.
pub fn first_subkey_name(hive: &[u8], path: &str) -> (name: Option<String>)
    ensures
        name.deep_view() == first_subkey_name_at(hive@, path@),
{
    if check_path(hive, path) {
        read_first_subkey_name(hive, path)
    } else {
        None
    }
}

/// Reads the string data of the value `name` of the key at `path`.
pub fn string_value(hive: &[u8], path: &str, name: &str) -> (value: Option<Option<String>>)
    ensures
        value.deep_view() == string_value_at(hive@, path@, name@),
{
    if check_path(hive, path) {
        read_string_value(hive, path, name)
    } else {
        None
    }
}

/// Reads the values of the key at `path`.
pub fn values(hive: &[u8], path: &str) -> (values: Option<Vec<(String, Vec<u8>)>>)
    ensures
        values.deep_view() == values_at(hive@, path@),
{
    if check_path(hive, path) {
        read_values(hive, path)
    } else {
        None
    }
}

/// Reads the data of the first value of the key at `path`.
pub fn first_value_data(hive: &[u8], path: &str) -> (data: Option<Vec<u8>>)
    ensures
        match data {
            Some(d) => first_value_data_at(hive@, path@) == Some(d@),
            None => first_value_data_at(hive@, path@) is None,
        },
{
    if check_path(hive, path) {
        read_first_value_data(hive, path)
    } else {
        None
    }
}

} // verus!
