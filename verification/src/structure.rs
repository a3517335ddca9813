//! The record kept for each USB device, and lookup by serial number.

use vstd::prelude::*;
use vstd::string::StringExecFns;

verus! {

/// What is known of one USB storage device.
pub struct UsbInfo {
    pub drive_type: String,
    pub vendor: String,
    pub product: String,
    pub version: String,
    /// Unique serial number of the device.
    pub usn: String,
    pub first_install: String,
    pub last_connected: String,
    pub last_removed: String,
    pub pid: String,
    pub vid: String,
    pub guid: String,
    /// Volume names and drive letters under which the device was seen.
    pub friendly_name: Vec<String>,
}

/// The contents of a [`UsbInfo`] as mathematical text.
pub struct UsbInfoView {
    pub drive_type: Seq<char>,
    pub vendor: Seq<char>,
    pub product: Seq<char>,
    pub version: Seq<char>,
    pub usn: Seq<char>,
    pub first_install: Seq<char>,
    pub last_connected: Seq<char>,
    pub last_removed: Seq<char>,
    pub pid: Seq<char>,
    pub vid: Seq<char>,
    pub guid: Seq<char>,
    pub friendly_name: Seq<Seq<char>>,
}

impl View for UsbInfo {
    type V = UsbInfoView;

    open spec fn view(&self) -> UsbInfoView {
        UsbInfoView {
            drive_type: self.drive_type@,
            vendor: self.vendor@,
            product: self.product@,
            version: self.version@,
            usn: self.usn@,
            first_install: self.first_install@,
            last_connected: self.last_connected@,
            last_removed: self.last_removed@,
            pid: self.pid@,
            vid: self.vid@,
            guid: self.guid@,
            friendly_name: self.friendly_name.deep_view(),
        }
    }
}

/// A record with every field empty.
pub open spec fn empty_info() -> UsbInfoView {
    UsbInfoView {
        drive_type: Seq::empty(),
        vendor: Seq::empty(),
        product: Seq::empty(),
        version: Seq::empty(),
        usn: Seq::empty(),
        first_install: Seq::empty(),
        last_connected: Seq::empty(),
        last_removed: Seq::empty(),
        pid: Seq::empty(),
        vid: Seq::empty(),
        guid: Seq::empty(),
        friendly_name: Seq::empty(),
    }
}

/// The views of a sequence of records.
pub open spec fn infos(l: Seq<UsbInfo>) -> Seq<UsbInfoView> {
    l.map_values(|u: UsbInfo| u@)
}

/// The first index at or after `start` whose record has serial number `usn`.
pub open spec fn find_usn_from(l: Seq<UsbInfoView>, usn: Seq<char>, start: int) -> Option<int>
    decreases l.len() - start,
{
    if start < 0 || start >= l.len() {
        None
    } else if l[start].usn == usn {
        Some(start)
    } else {
        find_usn_from(l, usn, start + 1)
    }
}

/// The index of the first record with serial number `usn`, if any.
pub open spec fn find_usn_spec(l: Seq<UsbInfoView>, usn: Seq<char>) -> Option<int> {
    find_usn_from(l, usn, 0)
}

/// `find_usn_spec` gives exactly the first record whose serial number is `usn`,
/// and nothing when no record has it.
pub proof fn lemma_find_usn_first(l: Seq<UsbInfoView>, usn: Seq<char>)
    ensures
        match find_usn_spec(l, usn) {
            Some(i) => 0 <= i < l.len() && l[i].usn == usn && forall|j: int|
                0 <= j < i ==> l[j].usn != usn,
            None => forall|j: int| 0 <= j < l.len() ==> l[j].usn != usn,
        },
{
    lemma_find_usn_from(l, usn, 0);
}

proof fn lemma_find_usn_from(l: Seq<UsbInfoView>, usn: Seq<char>, start: int)
    requires
        0 <= start,
    ensures
        match find_usn_from(l, usn, start) {
            Some(i) => start <= i < l.len() && l[i].usn == usn && forall|j: int|
                start <= j < i ==> l[j].usn != usn,
            None => forall|j: int| start <= j < l.len() ==> l[j].usn != usn,
        },
    decreases l.len() - start,
{
    if start < l.len() && l[start].usn != usn {
        lemma_find_usn_from(l, usn, start + 1);
    }
}

/// The text that describes a record, one field per line.
pub open spec fn display_spec(v: UsbInfoView) -> Seq<char> {
    "Type: \t\t\t"@ + v.drive_type + "\nVendor: \t\t"@ + v.vendor + "\nProduct: \t\t"@
        + v.product + "\nVersion: \t\t"@ + v.version + "\nUnique serial number: \t"@ + v.usn
        + "\nFirst install (UTC): \t"@ + v.first_install + "\nLast Connected (UTC): \t"@
        + v.last_connected + "\nLast Removal (UTC): \t"@ + v.last_removed + "\nPID: \t\t\t"@
        + v.pid + "\nVID: \t\t\t"@ + v.vid + "\nGUID: \t\t\t"@ + v.guid + "\n"@
}

impl UsbInfo {
    /// A record with every field empty.
    pub fn new() -> (r: Self)
        ensures
            r@ == empty_info(),
    {
        let r = UsbInfo {
            drive_type: String::new(),
            vendor: String::new(),
            product: String::new(),
            version: String::new(),
            usn: String::new(),
            first_install: String::new(),
            last_connected: String::new(),
            last_removed: String::new(),
            pid: String::new(),
            vid: String::new(),
            guid: String::new(),
            friendly_name: Vec::new(),
        };
        assert(r.friendly_name.deep_view() =~= Seq::<Seq<char>>::empty());
        r
    }

    /// A copy of the record.
    pub fn duplicate(&self) -> (r: Self)
        ensures
            r@ == self@,
    {
        let mut names: Vec<String> = Vec::new();
        let mut i: usize = 0;
        while i < self.friendly_name.len()
            invariant
                i <= self.friendly_name.len(),
                names.deep_view() == self.friendly_name.deep_view().take(i as int),
            decreases self.friendly_name.len() - i,
        {
            let ghost before = names.deep_view();
            names.push(self.friendly_name[i].clone());
            assert(names.deep_view() =~= before.push(self.friendly_name[i as int]@));
            assert(self.friendly_name.deep_view().take(i + 1) =~= self.friendly_name.deep_view().take(
                i as int,
            ).push(self.friendly_name[i as int]@));
            i = i + 1;
        }
        assert(self.friendly_name.deep_view().take(i as int) =~= self.friendly_name.deep_view());
        UsbInfo {
            drive_type: self.drive_type.clone(),
            vendor: self.vendor.clone(),
            product: self.product.clone(),
            version: self.version.clone(),
            usn: self.usn.clone(),
            first_install: self.first_install.clone(),
            last_connected: self.last_connected.clone(),
            last_removed: self.last_removed.clone(),
            pid: self.pid.clone(),
            vid: self.vid.clone(),
            guid: self.guid.clone(),
            friendly_name: names,
        }
    }

    /// The description of the record, one field per line.
    pub fn to_display_string(&self) -> (r: String)
        ensures
            r@ == display_spec(self@),
    {
        let mut r = String::new();
        r.append("Type: \t\t\t");
        r.append(self.drive_type.as_str());
        r.append("\nVendor: \t\t");
        r.append(self.vendor.as_str());
        r.append("\nProduct: \t\t");
        r.append(self.product.as_str());
        r.append("\nVersion: \t\t");
        r.append(self.version.as_str());
        r.append("\nUnique serial number: \t");
        r.append(self.usn.as_str());
        r.append("\nFirst install (UTC): \t");
        r.append(self.first_install.as_str());
        r.append("\nLast Connected (UTC): \t");
        r.append(self.last_connected.as_str());
        r.append("\nLast Removal (UTC): \t");
        r.append(self.last_removed.as_str());
        r.append("\nPID: \t\t\t");
        r.append(self.pid.as_str());
        r.append("\nVID: \t\t\t");
        r.append(self.vid.as_str());
        r.append("\nGUID: \t\t\t");
        r.append(self.guid.as_str());
        r.append("\n");
        r
    }
}

/// A copy of every record of `list`, in order.
pub fn copy_infos(list: &Vec<UsbInfo>) -> (r: Vec<UsbInfo>)
    ensures
        infos(r@) == infos(list@),
{
    let mut r: Vec<UsbInfo> = Vec::new();
    let mut i: usize = 0;
    while i < list.len()
        invariant
            i <= list.len(),
            infos(r@) == infos(list@).take(i as int),
        decreases list.len() - i,
    {
        let ghost before = infos(r@);
        r.push(list[i].duplicate());
        assert(infos(r@) =~= before.push(list[i as int]@));
        assert(infos(list@).take(i + 1) =~= infos(list@).take(i as int).push(list[i as int]@));
        i = i + 1;
    }
    assert(infos(list@).take(i as int) =~= infos(list@));
    r
}

/// The position of the first record whose serial number is `usn`.
pub fn find_usn(usn: String, vector: &Vec<UsbInfo>) -> (r: Option<usize>)
    ensures
        match r {
            Some(i) => find_usn_spec(infos(vector@), usn@) == Some(i as int),
            None => find_usn_spec(infos(vector@), usn@) is None,
        },
{
    let mut i: usize = 0;
    while i < vector.len()
        invariant
            i <= vector.len(),
            find_usn_spec(infos(vector@), usn@) == find_usn_from(infos(vector@), usn@, i as int),
        decreases vector.len() - i,
    {
        if vector[i].usn == usn {
            return Some(i);
        }
        i = i + 1;
    }
    None
}

} // verus!
