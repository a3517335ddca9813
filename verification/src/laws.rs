//! What the extractions promise of the list of records as a whole.

use vstd::prelude::*;
use crate::extract::{
    StepResult, apply_steps, subpath_spec, vid_pid_step, vid_pid_apply_spec,
    friendly_name_step, friendly_name_apply_spec, mounted_device_step, mounted_device_apply_spec,
    vendor_product_version_step, device_record_spec, timestamp_at_spec, all_timestamps_spec,
    mounted_usn_spec, OPEN_BRACE, GUID_TEXT_LEN,
};
use crate::hive::{
    CONTROLSET_ENUM_USB, CONTROLSET_ENUM_USBSTOR, SUFFIX_FIRST_INSTALL, SUFFIX_LAST_CONNECTED,
    SUFFIX_LAST_REMOVED, first_subkey_name_at, subkey_names_at,
};
use crate::text::{
    split_spec, contains_spec, lemma_split_nonempty, byte_slice_spec, first_byte_from,
    nonzero_bytes_as_chars,
};
use vstd::utf8::{encode_utf8, decode_utf8, valid_utf8};
use crate::hive::RegistryError;
use crate::structure::{UsbInfoView, find_usn_spec, lemma_find_usn_first, display_spec, empty_info};

verus! {

/// Some record of `l` has serial number `usn`.
pub open spec fn has_usn(l: Seq<UsbInfoView>, usn: Seq<char>) -> bool {
    exists|i: int| 0 <= i < l.len() && #[trigger] l[i].usn == usn
}

/// `b` keeps every record of `a` in place with its serial number, and may
/// add records after them.
pub open spec fn keeps_serials(a: Seq<UsbInfoView>, b: Seq<UsbInfoView>) -> bool {
    a.len() <= b.len() && forall|i: int| 0 <= i < a.len() ==> #[trigger] b[i].usn == a[i].usn
}

/// `b` has the records of `a`, in the same places, differing at most in
/// their volume names and volume GUIDs.
pub open spec fn same_devices(a: Seq<UsbInfoView>, b: Seq<UsbInfoView>) -> bool {
    &&& a.len() == b.len()
    &&& forall|i: int|
        0 <= i < a.len() ==> {
            &&& #[trigger] b[i].drive_type == a[i].drive_type
            &&& b[i].vendor == a[i].vendor
            &&& b[i].product == a[i].product
            &&& b[i].version == a[i].version
            &&& b[i].usn == a[i].usn
            &&& b[i].first_install == a[i].first_install
            &&& b[i].last_connected == a[i].last_connected
            &&& b[i].last_removed == a[i].last_removed
            &&& b[i].pid == a[i].pid
            &&& b[i].vid == a[i].vid
        }
}

/// `x` is the start of `y`.
pub open spec fn is_start_of(x: Seq<Seq<char>>, y: Seq<Seq<char>>) -> bool {
    x.len() <= y.len() && y.take(x.len() as int) == x
}

/// `b` has the records of `a`, in the same places, differing only in volume
/// names added after those each record had: every other field, the volume
/// GUID among them, is kept.
pub open spec fn names_appended(a: Seq<UsbInfoView>, b: Seq<UsbInfoView>) -> bool {
    &&& same_devices(a, b)
    &&& forall|i: int|
        0 <= i < a.len() ==> #[trigger] b[i].guid == a[i].guid && is_start_of(
            a[i].friendly_name,
            b[i].friendly_name,
        )
}

/// A walk keeps a relation between the records before and after it when
/// the relation is reflexive and transitive and every successful step
/// keeps it.
proof fn lemma_apply_steps_keeps<T>(
    list: Seq<UsbInfoView>,
    items: Seq<T>,
    step: spec_fn(Seq<UsbInfoView>, T) -> StepResult,
    rel: spec_fn(Seq<UsbInfoView>, Seq<UsbInfoView>) -> bool,
)
    requires
        forall|l: Seq<UsbInfoView>| #[trigger] rel(l, l),
        forall|a: Seq<UsbInfoView>, b: Seq<UsbInfoView>, c: Seq<UsbInfoView>|
            #[trigger] rel(a, b) && #[trigger] rel(b, c) ==> rel(a, c),
        forall|l: Seq<UsbInfoView>, x: T| (#[trigger] step(l, x)) matches Ok(next) ==> rel(l, next),
    ensures
        rel(list, apply_steps(list, items, step).0),
    decreases items.len(),
{
    if items.len() > 0 {
        lemma_apply_steps_keeps(list, items.drop_last(), step, rel);
        let (done, failure) = apply_steps(list, items.drop_last(), step);
        if failure is None {
            if let Ok(next) = step(done, items.last()) {
                assert(rel(done, next));
            }
        }
    }
}

/// The vendor/product pass (`get_vid_pid`) never removes a record or
/// changes a serial number; it only adds records after the existing ones.
pub proof fn law_vid_pid_keeps_serials(hive: Seq<u8>, list: Seq<UsbInfoView>, names: Seq<Seq<char>>)
    ensures
        keeps_serials(list, apply_steps(list, names, vid_pid_step(hive)).0),
{
    let rel = |a: Seq<UsbInfoView>, b: Seq<UsbInfoView>| keeps_serials(a, b);
    assert forall|l: Seq<UsbInfoView>, x: Seq<char>|
        (#[trigger] vid_pid_step(hive)(l, x)) is Ok implies rel(l, vid_pid_step(hive)(l, x)->Ok_0) by {
        if let Some(usn) = first_subkey_name_at(hive, subpath_spec(CONTROLSET_ENUM_USB@, x)) {
            lemma_find_usn_first(l, usn);
        }
    }
    lemma_apply_steps_keeps(list, names, vid_pid_step(hive), rel);
}

/// `b` keeps every record of `a` in place, changed at most in its vendor
/// and product identifiers, and may add records after them.
pub open spec fn ids_only_changed(a: Seq<UsbInfoView>, b: Seq<UsbInfoView>) -> bool {
    a.len() <= b.len() && forall|i: int|
        0 <= i < a.len() ==> #[trigger] b[i] == (UsbInfoView { pid: b[i].pid, vid: b[i].vid, ..a[i] })
}

/// The vendor/product pass (`get_vid_pid`) changes nothing in the records it
/// finds but their vendor and product identifiers; it only adds records after
/// them.
pub proof fn law_vid_pid_changes_only_ids(hive: Seq<u8>, list: Seq<UsbInfoView>, names: Seq<Seq<char>>)
    ensures
        ids_only_changed(list, apply_steps(list, names, vid_pid_step(hive)).0),
{
    let rel = |a: Seq<UsbInfoView>, b: Seq<UsbInfoView>| ids_only_changed(a, b);
    assert forall|l: Seq<UsbInfoView>, x: Seq<char>|
        (#[trigger] vid_pid_step(hive)(l, x)) is Ok implies rel(l, vid_pid_step(hive)(l, x)->Ok_0) by {
        if let Some(usn) = first_subkey_name_at(hive, subpath_spec(CONTROLSET_ENUM_USB@, x)) {
            lemma_find_usn_first(l, usn);
        }
    }
    lemma_apply_steps_keeps(list, names, vid_pid_step(hive), rel);
}

/// A successful vendor/product step leaves a record with the serial number
/// of the device it reads.
proof fn lemma_vid_pid_apply_lists(l: Seq<UsbInfoView>, key_name: Seq<char>, usn: Seq<char>)
    ensures
        vid_pid_apply_spec(l, key_name, usn) matches Ok(next) ==> has_usn(next, usn) && keeps_serials(l, next),
{
    lemma_find_usn_first(l, usn);
    if let Ok(next) = vid_pid_apply_spec(l, key_name, usn) {
        match find_usn_spec(l, usn) {
            Some(p) => assert(next[p].usn == usn),
            None => assert(next[l.len() as int].usn == usn),
        }
    }
}

/// When the vendor/product pass (`get_vid_pid`) succeeds, every device
/// listed under `SYSTEM\ControlSet001\Enum\USB` (named by the first subkey of
/// its key) has a record.
pub proof fn law_vid_pid_lists_every_device(
    hive: Seq<u8>,
    list: Seq<UsbInfoView>,
    names: Seq<Seq<char>>,
)
    requires
        apply_steps(list, names, vid_pid_step(hive)).1 is None,
    ensures
        forall|i: int|
            0 <= i < names.len() ==> (#[trigger] first_subkey_name_at(
                hive,
                subpath_spec(CONTROLSET_ENUM_USB@, names[i]),
            ) matches Some(usn) && has_usn(apply_steps(list, names, vid_pid_step(hive)).0, usn)),
    decreases names.len(),
{
    if names.len() > 0 {
        let front = names.drop_last();
        law_vid_pid_lists_every_device(hive, list, front);
        let done = apply_steps(list, front, vid_pid_step(hive)).0;
        let last = names.last();
        let usn = first_subkey_name_at(hive, subpath_spec(CONTROLSET_ENUM_USB@, last)).unwrap();
        lemma_vid_pid_apply_lists(done, last, usn);
        let next = apply_steps(list, names, vid_pid_step(hive)).0;
        assert forall|i: int|
            0 <= i < names.len() implies (#[trigger] first_subkey_name_at(
                hive,
                subpath_spec(CONTROLSET_ENUM_USB@, names[i]),
            ) matches Some(u) && has_usn(next, u)) by {
            if i < names.len() - 1 {
                assert(names[i] == front[i]);
                let u = first_subkey_name_at(hive, subpath_spec(CONTROLSET_ENUM_USB@, front[i])).unwrap();
                let k = choose|k: int| 0 <= k < done.len() && #[trigger] done[k].usn == u;
                assert(next[k].usn == u);
            }
        }
    }
}

/// The volume-name pass (`get_volume_name_drive_letter`) never adds or
/// removes a record, keeps every field but the volume names, the GUID among
/// them, and only adds volume names after those a record had.
#[verifier::spinoff_prover]
pub proof fn law_volume_names_same_devices(hive: Seq<u8>, list: Seq<UsbInfoView>, names: Seq<Seq<char>>)
    ensures
        names_appended(list, apply_steps(list, names, friendly_name_step(hive)).0),
{
    let rel = |a: Seq<UsbInfoView>, b: Seq<UsbInfoView>| names_appended(a, b);
    assert forall|l: Seq<UsbInfoView>| #[trigger] rel(l, l) by {
        assert forall|i: int| 0 <= i < l.len() implies is_start_of(
            l[i].friendly_name,
            l[i].friendly_name,
        ) by {
            assert(l[i].friendly_name.take(l[i].friendly_name.len() as int) =~= l[i].friendly_name);
        }
    }
    assert forall|a: Seq<UsbInfoView>, b: Seq<UsbInfoView>, c: Seq<UsbInfoView>|
        #[trigger] rel(a, b) && #[trigger] rel(b, c) implies rel(a, c) by {
        assert forall|i: int| 0 <= i < a.len() implies is_start_of(
            a[i].friendly_name,
            c[i].friendly_name,
        ) by {
            assert(b[i].guid == a[i].guid && is_start_of(a[i].friendly_name, b[i].friendly_name));
            assert(c[i].guid == b[i].guid && is_start_of(b[i].friendly_name, c[i].friendly_name));
            assert(c[i].friendly_name.take(a[i].friendly_name.len() as int) =~= c[i].friendly_name.take(
                b[i].friendly_name.len() as int,
            ).take(a[i].friendly_name.len() as int));
        }
    }
    assert forall|l: Seq<UsbInfoView>, x: Seq<char>|
        (#[trigger] friendly_name_step(hive)(l, x)) is Ok implies rel(
        l,
        friendly_name_step(hive)(l, x)->Ok_0,
    ) by {
        let next = friendly_name_step(hive)(l, x)->Ok_0;
        let parts = crate::text::split_spec(x, '#');
        if parts.len() > 5 {
            lemma_find_usn_first(l, crate::text::split_spec(parts[4], '&')[0]);
        }
        assert forall|i: int| 0 <= i < l.len() implies is_start_of(
            l[i].friendly_name,
            next[i].friendly_name,
        ) by {
            assert(next[i].friendly_name.take(l[i].friendly_name.len() as int) =~= l[i].friendly_name);
        }
    }
    lemma_apply_steps_keeps(list, names, friendly_name_step(hive), rel);
}

/// `b` has the records of `a`, in the same places, differing only in their
/// volume GUIDs and in volume names added after those each record had.
pub open spec fn names_grow(a: Seq<UsbInfoView>, b: Seq<UsbInfoView>) -> bool {
    &&& same_devices(a, b)
    &&& forall|i: int| 0 <= i < a.len() ==> is_start_of(#[trigger] a[i].friendly_name, b[i].friendly_name)
}

/// The mounted-volume pass (`get_volume_guid`) never adds or removes a
/// record, changes nothing in them but their volume names and GUIDs, and
/// only adds volume names after those a record had.
#[verifier::spinoff_prover]
pub proof fn law_volume_guids_same_devices(list: Seq<UsbInfoView>, values: Seq<(Seq<char>, Seq<u8>)>)
    ensures
        same_devices(list, apply_steps(list, values, mounted_device_step()).0),
        names_grow(list, apply_steps(list, values, mounted_device_step()).0),
{
    let rel = |a: Seq<UsbInfoView>, b: Seq<UsbInfoView>| names_grow(a, b);
    assert forall|l: Seq<UsbInfoView>| #[trigger] rel(l, l) by {
        assert forall|i: int| 0 <= i < l.len() implies is_start_of(
            #[trigger] l[i].friendly_name,
            l[i].friendly_name,
        ) by {
            assert(l[i].friendly_name.take(l[i].friendly_name.len() as int) =~= l[i].friendly_name);
        }
    }
    assert forall|a: Seq<UsbInfoView>, b: Seq<UsbInfoView>, c: Seq<UsbInfoView>|
        #[trigger] rel(a, b) && #[trigger] rel(b, c) implies rel(a, c) by {
        assert forall|i: int| 0 <= i < a.len() implies is_start_of(
            #[trigger] a[i].friendly_name,
            c[i].friendly_name,
        ) by {
            assert(is_start_of(a[i].friendly_name, b[i].friendly_name));
            assert(is_start_of(b[i].friendly_name, c[i].friendly_name));
            assert(c[i].friendly_name.take(a[i].friendly_name.len() as int) =~= c[i].friendly_name.take(
                b[i].friendly_name.len() as int,
            ).take(a[i].friendly_name.len() as int));
        }
    }
    assert forall|l: Seq<UsbInfoView>, x: (Seq<char>, Seq<u8>)|
        (#[trigger] mounted_device_step()(l, x)) is Ok implies rel(l, mounted_device_step()(l, x)->Ok_0) by {
        let next = mounted_device_step()(l, x)->Ok_0;
        if let Some(usn) = crate::extract::mounted_usn_spec(x.1) {
            lemma_find_usn_first(l, usn);
        }
        assert forall|i: int| 0 <= i < l.len() implies is_start_of(
            #[trigger] l[i].friendly_name,
            next[i].friendly_name,
        ) by {
            assert(next[i].friendly_name.take(l[i].friendly_name.len() as int) =~= l[i].friendly_name);
        }
    }
    lemma_apply_steps_keeps(list, values, mounted_device_step(), rel);
}

/// The storage-device pass (`get_vendor_product_version`) keeps the records
/// it finds and, when it succeeds, adds exactly one record per device class
/// key, in the order of the keys.
pub proof fn law_vendor_pass_appends(hive: Seq<u8>, list: Seq<UsbInfoView>, names: Seq<Seq<char>>)
    ensures
        ({
            let (l, failure) = apply_steps(list, names, vendor_product_version_step(hive));
            &&& l.len() >= list.len()
            &&& l.subrange(0, list.len() as int) == list
            &&& failure is None ==> l.len() == list.len() + names.len() && forall|i: int|
                0 <= i < names.len() ==> device_record_spec(hive, #[trigger] names[i]) == Ok::<
                    UsbInfoView,
                    crate::hive::RegistryError,
                >(l[list.len() + i])
        }),
    decreases names.len(),
{
    if names.len() > 0 {
        let front = names.drop_last();
        law_vendor_pass_appends(hive, list, front);
        let (done, failure) = apply_steps(list, front, vendor_product_version_step(hive));
        let (l, f2) = apply_steps(list, names, vendor_product_version_step(hive));
        if failure is None {
            if let Ok(info) = device_record_spec(hive, names.last()) {
                assert(l == done.push(info));
                assert(l.subrange(0, list.len() as int) =~= done.subrange(0, list.len() as int));
                assert forall|i: int| 0 <= i < names.len() implies device_record_spec(
                    hive,
                    #[trigger] names[i],
                ) == Ok::<UsbInfoView, crate::hive::RegistryError>(l[list.len() + i]) by {
                    if i < names.len() - 1 {
                        assert(names[i] == front[i]);
                    }
                }
            }
        }
    } else {
        assert(list.subrange(0, list.len() as int) =~= list);
    }
}


/// A record added with a serial number that no earlier record has is the
/// one that lookup by that serial number (`find_usn`) then finds.
pub proof fn law_find_usn_after_push(l: Seq<UsbInfoView>, info: UsbInfoView)
    requires
        !has_usn(l, info.usn),
    ensures
        find_usn_spec(l.push(info), info.usn) == Some(l.len() as int),
{
    let pushed = l.push(info);
    lemma_find_usn_first(pushed, info.usn);
    match find_usn_spec(pushed, info.usn) {
        Some(i) => {
            if i < l.len() {
                assert(l[i].usn == info.usn);
            }
        },
        None => {
            assert(pushed[l.len() as int].usn == info.usn);
        },
    }
}

/// `text` holds `label`, directly followed by `field`, directly followed by
/// `next`.
pub open spec fn shows(text: Seq<char>, label: Seq<char>, field: Seq<char>, next: Seq<char>) -> bool {
    exists|pre: Seq<char>, post: Seq<char>| text == pre + label + field + next + post
}

proof fn lemma_regroup(b: Seq<char>, f: Seq<char>, l: Seq<char>, post: Seq<char>)
    ensures
        ((b + f) + l) + post == b + (f + (l + post)),
{
    assert(((b + f) + l) + post =~= b + (f + (l + post)));
}

/// The text of a record shows each of its fields under that field's own
/// label, directly followed by the next label: the drive type under
/// `Type:`, the last connection time under `Last Connected (UTC):`, the last
/// removal time under `Last Removal (UTC):`, and so on.
pub proof fn law_display_shows_each_field(v: UsbInfoView)
    ensures
        shows(display_spec(v), "Type: \t\t\t"@, v.drive_type, "\nVendor: \t\t"@),
        shows(display_spec(v), "\nVendor: \t\t"@, v.vendor, "\nProduct: \t\t"@),
        shows(display_spec(v), "\nProduct: \t\t"@, v.product, "\nVersion: \t\t"@),
        shows(display_spec(v), "\nVersion: \t\t"@, v.version, "\nUnique serial number: \t"@),
        shows(display_spec(v), "\nUnique serial number: \t"@, v.usn, "\nFirst install (UTC): \t"@),
        shows(display_spec(v), "\nFirst install (UTC): \t"@, v.first_install, "\nLast Connected (UTC): \t"@),
        shows(display_spec(v), "\nLast Connected (UTC): \t"@, v.last_connected, "\nLast Removal (UTC): \t"@),
        shows(display_spec(v), "\nLast Removal (UTC): \t"@, v.last_removed, "\nPID: \t\t\t"@),
        shows(display_spec(v), "\nPID: \t\t\t"@, v.pid, "\nVID: \t\t\t"@),
        shows(display_spec(v), "\nVID: \t\t\t"@, v.vid, "\nGUID: \t\t\t"@),
        shows(display_spec(v), "\nGUID: \t\t\t"@, v.guid, "\n"@),
{
    let e = Seq::<char>::empty();
    assert(e + "Type: \t\t\t"@ =~= "Type: \t\t\t"@);
    let a0 = e;
    let a1 = "Type: \t\t\t"@ + v.drive_type;
    let a2 = a1 + "\nVendor: \t\t"@ + v.vendor;
    let a3 = a2 + "\nProduct: \t\t"@ + v.product;
    let a4 = a3 + "\nVersion: \t\t"@ + v.version;
    let a5 = a4 + "\nUnique serial number: \t"@ + v.usn;
    let a6 = a5 + "\nFirst install (UTC): \t"@ + v.first_install;
    let a7 = a6 + "\nLast Connected (UTC): \t"@ + v.last_connected;
    let a8 = a7 + "\nLast Removal (UTC): \t"@ + v.last_removed;
    let a9 = a8 + "\nPID: \t\t\t"@ + v.pid;
    let a10 = a9 + "\nVID: \t\t\t"@ + v.vid;
    let b0 = a0 + "Type: \t\t\t"@ + v.drive_type + "\nVendor: \t\t"@;
    let b1 = a1 + "\nVendor: \t\t"@ + v.vendor + "\nProduct: \t\t"@;
    let b2 = a2 + "\nProduct: \t\t"@ + v.product + "\nVersion: \t\t"@;
    let b3 = a3 + "\nVersion: \t\t"@ + v.version + "\nUnique serial number: \t"@;
    let b4 = a4 + "\nUnique serial number: \t"@ + v.usn + "\nFirst install (UTC): \t"@;
    let b5 = a5 + "\nFirst install (UTC): \t"@ + v.first_install + "\nLast Connected (UTC): \t"@;
    let b6 = a6 + "\nLast Connected (UTC): \t"@ + v.last_connected + "\nLast Removal (UTC): \t"@;
    let b7 = a7 + "\nLast Removal (UTC): \t"@ + v.last_removed + "\nPID: \t\t\t"@;
    let b8 = a8 + "\nPID: \t\t\t"@ + v.pid + "\nVID: \t\t\t"@;
    let b9 = a9 + "\nVID: \t\t\t"@ + v.vid + "\nGUID: \t\t\t"@;
    let b10 = a10 + "\nGUID: \t\t\t"@ + v.guid + "\n"@;
    let p10 = e;
    assert(display_spec(v) =~= b10 + p10);
    let p9 = v.guid + ("\n"@ + p10);
    lemma_regroup(b9, v.guid, "\n"@, p10);
    let p8 = v.vid + ("\nGUID: \t\t\t"@ + p9);
    lemma_regroup(b8, v.vid, "\nGUID: \t\t\t"@, p9);
    let p7 = v.pid + ("\nVID: \t\t\t"@ + p8);
    lemma_regroup(b7, v.pid, "\nVID: \t\t\t"@, p8);
    let p6 = v.last_removed + ("\nPID: \t\t\t"@ + p7);
    lemma_regroup(b6, v.last_removed, "\nPID: \t\t\t"@, p7);
    let p5 = v.last_connected + ("\nLast Removal (UTC): \t"@ + p6);
    lemma_regroup(b5, v.last_connected, "\nLast Removal (UTC): \t"@, p6);
    let p4 = v.first_install + ("\nLast Connected (UTC): \t"@ + p5);
    lemma_regroup(b4, v.first_install, "\nLast Connected (UTC): \t"@, p5);
    let p3 = v.usn + ("\nFirst install (UTC): \t"@ + p4);
    lemma_regroup(b3, v.usn, "\nFirst install (UTC): \t"@, p4);
    let p2 = v.version + ("\nUnique serial number: \t"@ + p3);
    lemma_regroup(b2, v.version, "\nUnique serial number: \t"@, p3);
    let p1 = v.product + ("\nVersion: \t\t"@ + p2);
    lemma_regroup(b1, v.product, "\nVersion: \t\t"@, p2);
    let p0 = v.vendor + ("\nProduct: \t\t"@ + p1);
    lemma_regroup(b0, v.vendor, "\nProduct: \t\t"@, p1);
    assert(display_spec(v) == a0 + "Type: \t\t\t"@ + v.drive_type + "\nVendor: \t\t"@ + p0);
    assert(display_spec(v) == a1 + "\nVendor: \t\t"@ + v.vendor + "\nProduct: \t\t"@ + p1);
    assert(display_spec(v) == a2 + "\nProduct: \t\t"@ + v.product + "\nVersion: \t\t"@ + p2);
    assert(display_spec(v) == a3 + "\nVersion: \t\t"@ + v.version + "\nUnique serial number: \t"@ + p3);
    assert(display_spec(v) == a4 + "\nUnique serial number: \t"@ + v.usn + "\nFirst install (UTC): \t"@ + p4);
    assert(display_spec(v) == a5 + "\nFirst install (UTC): \t"@ + v.first_install + "\nLast Connected (UTC): \t"@ + p5);
    assert(display_spec(v) == a6 + "\nLast Connected (UTC): \t"@ + v.last_connected + "\nLast Removal (UTC): \t"@ + p6);
    assert(display_spec(v) == a7 + "\nLast Removal (UTC): \t"@ + v.last_removed + "\nPID: \t\t\t"@ + p7);
    assert(display_spec(v) == a8 + "\nPID: \t\t\t"@ + v.pid + "\nVID: \t\t\t"@ + p8);
    assert(display_spec(v) == a9 + "\nVID: \t\t\t"@ + v.vid + "\nGUID: \t\t\t"@ + p9);
    assert(display_spec(v) == a10 + "\nGUID: \t\t\t"@ + v.guid + "\n"@ + p10);
}

/// Reading the times of a device sets its first install time from the key
/// `...\0064`, its last connection time from `...\0066` and its last
/// removal time from `...\0067` under the device key, each to the
/// timestamp stored there, and changes nothing else in the record.
pub proof fn law_all_timestamps_read_their_keys(hive: Seq<u8>, usn_path: Seq<char>, info: UsbInfoView)
    ensures
        ({
            let (r, failure) = all_timestamps_spec(hive, usn_path, info);
            failure is None ==> {
                &&& timestamp_at_spec(hive, usn_path + SUFFIX_FIRST_INSTALL@) == Ok::<
                    Seq<char>,
                    RegistryError,
                >(r.first_install)
                &&& timestamp_at_spec(hive, usn_path + SUFFIX_LAST_CONNECTED@) == Ok::<
                    Seq<char>,
                    RegistryError,
                >(r.last_connected)
                &&& timestamp_at_spec(hive, usn_path + SUFFIX_LAST_REMOVED@) == Ok::<
                    Seq<char>,
                    RegistryError,
                >(r.last_removed)
                &&& r == UsbInfoView {
                    first_install: r.first_install,
                    last_connected: r.last_connected,
                    last_removed: r.last_removed,
                    ..info
                }
            }
        }),
{
}

/// The record that a device class key `Type&Vendor&Product&Revision...`
/// under `Enum\USBSTOR` gives holds the first four `&`-fields of the key
/// name as drive type, vendor, product and revision; as serial number the
/// first `&`-field of the name of the key's last subkey; the three times
/// stored under that serial number's key (`<serial>&0`); and nothing else.
pub proof fn law_device_record_fields(hive: Seq<u8>, key_name: Seq<char>)
    ensures
        device_record_spec(hive, key_name) matches Ok(info) ==> {
            let parts = split_spec(key_name, '&');
            let class_path = CONTROLSET_ENUM_USBSTOR@ + "\\"@ + key_name;
            let usn_path = class_path + "\\"@ + info.usn + "&0"@;
            &&& parts.len() >= 4
            &&& info.drive_type == parts[0]
            &&& info.vendor == parts[1]
            &&& info.product == parts[2]
            &&& info.version == parts[3]
            &&& subkey_names_at(hive, class_path) matches Some(serials) && info.usn == (if serials.len()
                == 0 {
                Seq::<char>::empty()
            } else {
                split_spec(serials.last(), '&')[0]
            })
            &&& timestamp_at_spec(hive, usn_path + SUFFIX_FIRST_INSTALL@) == Ok::<
                Seq<char>,
                RegistryError,
            >(info.first_install)
            &&& timestamp_at_spec(hive, usn_path + SUFFIX_LAST_CONNECTED@) == Ok::<
                Seq<char>,
                RegistryError,
            >(info.last_connected)
            &&& timestamp_at_spec(hive, usn_path + SUFFIX_LAST_REMOVED@) == Ok::<
                Seq<char>,
                RegistryError,
            >(info.last_removed)
            &&& info.pid.len() == 0 && info.vid.len() == 0 && info.guid.len() == 0
            &&& info.friendly_name.len() == 0
        },
{
    if let Ok(info) = device_record_spec(hive, key_name) {
        let parts = split_spec(key_name, '&');
        let class_path = CONTROLSET_ENUM_USBSTOR@ + "\\"@ + key_name;
        let base = UsbInfoView {
            drive_type: parts[0],
            vendor: parts[1],
            product: parts[2],
            version: parts[3],
            ..empty_info()
        };
        let serials = subkey_names_at(hive, class_path)->Some_0;
        let with_serial = crate::extract::serial_number_spec(base, serials);
        let usn_path = class_path + "\\"@ + with_serial.usn + "&0"@;
        law_all_timestamps_read_their_keys(hive, usn_path, with_serial);
    }
}

/// A key under `Enum\USB` named `VID_xxxx&PID_xxxx...`, whose device has
/// the serial number `usn`, gives that device the key's first `&`-field as
/// vendor identifier and its second as product identifier (a root hub, whose
/// first field holds `ROOT_HUB`, an empty product identifier). The first
/// record with that serial number gets them and every other record stays as
/// it was; where no record has the serial number, one record is added after
/// the others, empty but for the serial number and the two identifiers. A
/// key other than a root hub with a single field is refused.
pub proof fn law_vid_pid_sets_ids(l: Seq<UsbInfoView>, key_name: Seq<char>, usn: Seq<char>)
    ensures
        ({
            let parts = split_spec(key_name, '&');
            let root_hub = contains_spec(parts[0], "ROOT_HUB"@);
            let pid = if root_hub {
                Seq::<char>::empty()
            } else {
                parts[1]
            };
            match vid_pid_apply_spec(l, key_name, usn) {
                Err(_) => !root_hub && parts.len() < 2,
                Ok(next) => {
                    &&& root_hub || parts.len() >= 2
                    &&& exists|i: int|
                        0 <= i < next.len() && #[trigger] next[i].usn == usn && next[i].vid == parts[0]
                            && next[i].pid == pid && (forall|j: int| 0 <= j < i ==> next[j].usn != usn)
                            && (forall|j: int|
                            0 <= j < l.len() && j != i ==> #[trigger] next[j] == l[j])
                    &&& has_usn(l, usn) ==> next.len() == l.len()
                    &&& !has_usn(l, usn) ==> next.len() == l.len() + 1 && next[l.len() as int]
                        == (UsbInfoView { pid: pid, usn: usn, vid: parts[0], ..empty_info() })
                },
            }
        }),
{
    lemma_split_nonempty(key_name, '&');
    lemma_find_usn_first(l, usn);
    if let Ok(next) = vid_pid_apply_spec(l, key_name, usn) {
        match find_usn_spec(l, usn) {
            Some(p) => {
                assert(next[p].usn == usn);
                assert(has_usn(l, usn));
            },
            None => {
                let i = l.len() as int;
                assert(next[i].usn == usn);
                if has_usn(l, usn) {
                    let j = choose|j: int| 0 <= j < l.len() && #[trigger] l[j].usn == usn;
                    assert(l[j].usn == usn);
                }
            },
        }
    }
}

/// The serial number that a portable-device key name
/// `SWD#WPDBUSENUM#_??_USBSTOR#<class>#<serial>&0#{...}` names: the first
/// `&`-field of its fifth `#`-field.
pub open spec fn portable_device_serial(key_name: Seq<char>) -> Seq<char> {
    split_spec(split_spec(key_name, '#')[4], '&')[0]
}

/// A portable-device key with a friendly name adds that name, after the
/// names it had, to the first record whose serial number is the one the key
/// names, and changes nothing else. Where the key has no friendly name, has
/// five `#`-fields or fewer, or no record has its serial number, the
/// records stay as they were.
pub proof fn law_friendly_name_goes_to_its_device(
    l: Seq<UsbInfoView>,
    key_name: Seq<char>,
    friendly: Option<Seq<char>>,
)
    ensures
        ({
            let next = friendly_name_apply_spec(l, key_name, friendly);
            let usn = portable_device_serial(key_name);
            if friendly is Some && split_spec(key_name, '#').len() > 5 && has_usn(l, usn) {
                exists|i: int|
                    0 <= i < l.len() && #[trigger] l[i].usn == usn && (forall|j: int|
                        0 <= j < i ==> l[j].usn != usn) && next == l.update(
                        i,
                        UsbInfoView { friendly_name: l[i].friendly_name.push(friendly->Some_0), ..l[i] },
                    )
            } else {
                next == l
            }
        }),
{
    let usn = portable_device_serial(key_name);
    lemma_find_usn_first(l, usn);
    if friendly is Some && split_spec(key_name, '#').len() > 5 && has_usn(l, usn) {
        match find_usn_spec(l, usn) {
            Some(p) => {
                assert(l[p].usn == usn);
            },
            None => {
                let j = choose|j: int| 0 <= j < l.len() && #[trigger] l[j].usn == usn;
                assert(l[j].usn == usn);
            },
        }
    } else if friendly is Some && split_spec(key_name, '#').len() > 5 {
        if let Some(p) = find_usn_spec(l, usn) {
            assert(l[p].usn == usn);
        }
    }
}

/// A value of `MountedDevices` changes at most the first record whose serial
/// number is the one its data names: it adds, after the names that record
/// had, one volume name, the last three bytes of the value's name (a value
/// of a `DosDevices` drive letter), or sets the record's volume GUID to the
/// 38 bytes of the value's name from its first `{` (another value); nothing
/// else changes.
pub proof fn law_mounted_device_changes_its_device(
    l: Seq<UsbInfoView>,
    value_name: Seq<char>,
    data: Seq<u8>,
)
    ensures
        mounted_device_apply_spec(l, value_name, data) matches Ok(next) ==> {
            &&& next.len() == l.len()
            &&& forall|i: int|
                0 <= i < l.len() && #[trigger] next[i] != l[i] ==> {
                    &&& mounted_usn_spec(data) == Some(l[i].usn)
                    &&& forall|j: int| 0 <= j < i ==> l[j].usn != l[i].usn
                    &&& if contains_spec(value_name, "DosDevices"@) {
                        let n = encode_utf8(value_name).len() as int;
                        &&& next[i].friendly_name.len() == l[i].friendly_name.len() + 1
                        &&& is_start_of(l[i].friendly_name, next[i].friendly_name)
                        &&& byte_slice_spec(value_name, n - 3, n) == Some(next[i].friendly_name.last())
                        &&& next[i] == UsbInfoView { friendly_name: next[i].friendly_name, ..l[i] }
                    } else {
                        &&& first_byte_from(encode_utf8(value_name), OPEN_BRACE, 0) matches Some(b)
                            && byte_slice_spec(value_name, b, b + GUID_TEXT_LEN) == Some(next[i].guid)
                        &&& next[i] == UsbInfoView { guid: next[i].guid, ..l[i] }
                    }
                }
        },
{
    if let Some(usn) = mounted_usn_spec(data) {
        lemma_find_usn_first(l, usn);
        if let Ok(next) = mounted_device_apply_spec(l, value_name, data) {
            if let Some(p) = find_usn_spec(l, usn) {
                if contains_spec(value_name, "DosDevices"@) && next != l {
                    assert(next[p].friendly_name.take(l[p].friendly_name.len() as int)
                        =~= l[p].friendly_name);
                }
            }
        }
    }
}

/// Text made of ASCII characters other than the zero character.
pub open spec fn plain_ascii(t: Seq<char>) -> bool {
    forall|i: int| 0 <= i < t.len() ==> '\u{1}' <= #[trigger] t[i] <= '\u{7f}'
}

proof fn lemma_nonzero_ascii(t: Seq<char>, k: int)
    requires
        plain_ascii(t),
        0 <= k <= t.len(),
        encode_utf8(t).len() == t.len(),
        forall|i: int| 0 <= i < t.len() ==> t[i] as u8 == #[trigger] encode_utf8(t)[i],
    ensures
        nonzero_bytes_as_chars(encode_utf8(t).take(k)) == t.take(k),
    decreases k,
{
    let b = encode_utf8(t);
    if k > 0 {
        lemma_nonzero_ascii(t, k - 1);
        assert(b.take(k).drop_last() =~= b.take(k - 1));
        let c = t[k - 1];
        assert(b[k - 1] == c as u8);
        assert('\u{1}' <= c <= '\u{7f}');
        assert((c as u8) != 0 && (c as u8) as char == c) by {
            vstd::utf8::char_u32_cast(c, c as u32);
        }
        assert(t.take(k) =~= t.take(k - 1).push(c));
    } else {
        assert(t.take(0) =~= Seq::<char>::empty());
    }
}

/// The serial number that the data of a mounted-device value names. Data
/// that is UTF-8 text `..&..&..&<x>#<serial>#..&..` (more than four
/// `&`-fields) names the `#`-field after the first of its fourth `&`-field,
/// which, made of ASCII characters other than zero, is the serial number as
/// it stands; such text whose fourth field has no `#` names none. Data that
/// is not UTF-8 text, or has four `&`-fields or fewer, names the empty serial
/// number.
pub proof fn law_mounted_usn(data: Seq<u8>)
    ensures
        !valid_utf8(data) ==> mounted_usn_spec(data) == Some(Seq::<char>::empty()),
        ({
            let parts = split_spec(decode_utf8(data), '&');
            let pieces = split_spec(parts[3], '#');
            valid_utf8(data) ==> {
                &&& parts.len() <= 4 ==> mounted_usn_spec(data) == Some(Seq::<char>::empty())
                &&& parts.len() > 4 && pieces.len() < 2 ==> mounted_usn_spec(data) is None
                &&& parts.len() > 4 && pieces.len() >= 2 && plain_ascii(pieces[1])
                    ==> mounted_usn_spec(data) == Some(pieces[1])
            }
        }),
{
    let parts = split_spec(decode_utf8(data), '&');
    let pieces = split_spec(parts[3], '#');
    if valid_utf8(data) && parts.len() > 4 && pieces.len() >= 2 && plain_ascii(pieces[1]) {
        let t = pieces[1];
        assert(vstd::utf8::is_ascii_chars(t));
        vstd::utf8::is_ascii_chars_encode_utf8(t);
        lemma_nonzero_ascii(t, t.len() as int);
        assert(encode_utf8(t).take(t.len() as int) =~= encode_utf8(t));
        assert(t.take(t.len() as int) =~= t);
    }
}

} // verus!
