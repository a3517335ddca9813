//! Which reads of a hive file `nt_hive` makes without panicking.
//!
//! `Hive::new` panics while it reports a base block whose signature is not
//! `regf`. Further, `nt_hive` looks up a cell by a 32-bit offset stored in
//! the hive. It asserts that the offset is not `0xFFFF_FFFF` (the "no cell"
//! marker), and it subtracts the cell header's size from the cell's size,
//! which underflows for a size field of zero. A hive that makes it look up
//! such a cell stops the program. The check below follows one path from the
//! root key, as `nt_hive`'s `subpath` does through subkey lists (leaves and
//! index roots), and tests every offset that `nt_hive` could look up on the
//! way and in the key reached: its subkey list and items, its value list
//! and items, value data and big-data segments. Keys off the path are not
//! looked at.

use vstd::prelude::*;
use crate::text::{split_spec, split_by_char, chars_of};

verus! {

/// Length of the base block that precedes the hive data.
pub const BASE_BLOCK_LEN: usize = 4096;

/// Offset, in the base block, of the root key's cell offset.
pub const ROOT_OFFSET_FIELD: usize = 36;

/// The "no cell" marker.
pub const NO_CELL: u64 = 0xFFFF_FFFF;

/// Bytes of data in one big-data segment.
pub const BIG_DATA_SEGMENT_SIZE: u64 = 16344;

/// The hive data: the bytes after the base block.
pub open spec fn data_of(h: Seq<u8>) -> Seq<u8> {
    h.subrange(BASE_BLOCK_LEN as int, h.len() as int)
}

/// The little-endian 16-bit value at `p`.
pub open spec fn u16_at(d: Seq<u8>, p: int) -> int {
    d[p] as int + 256 * (d[p + 1] as int)
}

/// The little-endian 32-bit value at `p`.
pub open spec fn u32_at(d: Seq<u8>, p: int) -> int {
    d[p] as int + 256 * (d[p + 1] as int) + 65536 * (d[p + 2] as int) + 16777216 * (d[p + 3] as int)
}

/// The `i`-th offset of a table of `size`-byte items starting at `start`.
pub open spec fn item(d: Seq<u8>, start: int, size: int, i: int) -> int {
    u32_at(d, start + i * size)
}

/// Looking up the cell at offset `o` does not panic: `o` is not the
/// "no cell" marker, and the cell's size field, where it lies in the data,
/// is not zero.
pub open spec fn deref_ok(d: Seq<u8>, o: int) -> bool {
    o != NO_CELL && !(0 <= o && o + 4 <= d.len() && u32_at(d, o) == 0)
}

/// The range of the contents of the allocated cell at `o`, as `nt_hive`
/// accepts it: a negative size field whose magnitude is a multiple of 8 and
/// keeps the cell inside the data.
pub open spec fn cell(d: Seq<u8>, o: int) -> Option<(int, int)> {
    if 0 <= o && o + 4 <= d.len() && u32_at(d, o) >= 0x8000_0000 {
        let size = 0x1_0000_0000 - u32_at(d, o);
        if size % 8 == 0 && o + size <= d.len() {
            Some((o + 4, o + size))
        } else {
            None
        }
    } else {
        None
    }
}

/// Where the key node header in the cell at `o` starts, when that cell
/// holds one (signature `nk`, header of 76 bytes).
pub open spec fn nk_start(d: Seq<u8>, o: int) -> Option<int> {
    match cell(d, o) {
        Some((s, e)) => if e - s >= 76 && d[s] == 0x6e && d[s + 1] == 0x6b {
            Some(s)
        } else {
            None
        },
        None => None,
    }
}

/// The size of one item of the leaf whose header starts at `s`: 8 for
/// `lf` and `lh`, 4 for `li`, 0 for anything else.
pub open spec fn leaf_item_size(d: Seq<u8>, s: int) -> int {
    if d[s] == 0x6c && (d[s + 1] == 0x66 || d[s + 1] == 0x68) {
        8
    } else if d[s] == 0x6c && d[s + 1] == 0x69 {
        4
    } else {
        0
    }
}

/// The item table (start, count, item size) of the leaf in the cell at `l`.
pub open spec fn leaf_list(d: Seq<u8>, l: int) -> Option<(int, int, int)> {
    match cell(d, l) {
        Some((s, e)) => if e - s >= 4 && leaf_item_size(d, s) > 0 && s + 4 + u16_at(d, s + 2)
            * leaf_item_size(d, s) <= e {
            Some((s + 4, u16_at(d, s + 2), leaf_item_size(d, s)))
        } else {
            None
        },
        None => None,
    }
}

/// The item table (start, count) of the index root (`ri`) in the cell at `l`.
pub open spec fn index_root(d: Seq<u8>, l: int) -> Option<(int, int)> {
    match cell(d, l) {
        Some((s, e)) => if e - s >= 4 && d[s] == 0x72 && d[s + 1] == 0x69 && s + 4 + u16_at(d, s + 2)
            * 4 <= e {
            Some((s + 4, u16_at(d, s + 2)))
        } else {
            None
        },
        None => None,
    }
}

/// A leaf that an index root refers to: it must hold at least one item.
pub open spec fn root_leaf(d: Seq<u8>, r: int) -> Option<(int, int, int)> {
    match leaf_list(d, r) {
        Some((st, n, size)) => if n >= 1 {
            Some((st, n, size))
        } else {
            None
        },
        None => None,
    }
}

/// Every offset in an item table can be looked up.
pub open spec fn items_ok(d: Seq<u8>, start: int, n: int, size: int) -> bool {
    forall|i: int| 0 <= i < n ==> deref_ok(d, #[trigger] item(d, start, size, i))
}

/// The subkey list of the key whose header starts at `s` can be walked.
pub open spec fn subkeys_ok(d: Seq<u8>, s: int) -> bool {
    let l = u32_at(d, s + 28);
    l == NO_CELL || (deref_ok(d, l) && match leaf_list(d, l) {
        Some((st, n, size)) => items_ok(d, st, n, size),
        None => match index_root(d, l) {
            Some((st, n)) => forall|i: int|
                0 <= i < n ==> deref_ok(d, #[trigger] item(d, st, 4, i)) && (root_leaf(
                    d,
                    item(d, st, 4, i),
                ) matches Some((st2, n2, size2)) ==> items_ok(d, st2, n2, size2)),
            None => true,
        },
    })
}

/// The data of a value, with size field `size` and data offset `off`, can
/// be read: inline data, one cell, or a big-data block and its segments.
pub open spec fn data_ok(d: Seq<u8>, size: int, off: int) -> bool {
    size >= 0x8000_0000 || (deref_ok(d, off) && (size <= BIG_DATA_SEGMENT_SIZE || match cell(
        d,
        off,
    ) {
        Some((bs, be)) => (be - bs >= 8 && d[bs] == 0x64 && d[bs + 1] == 0x62 && size <= u16_at(
            d,
            bs + 2,
        ) * BIG_DATA_SEGMENT_SIZE) ==> (deref_ok(d, u32_at(d, bs + 4)) && match cell(
            d,
            u32_at(d, bs + 4),
        ) {
            Some((qs, qe)) => qs + u16_at(d, bs + 2) * 4 <= qe ==> items_ok(
                d,
                qs,
                u16_at(d, bs + 2),
                4,
            ),
            None => true,
        }),
        None => true,
    }))
}

/// The value in the cell at `v` can be read, when it is one (`vk`, header
/// of 20 bytes).
pub open spec fn value_ok(d: Seq<u8>, v: int) -> bool {
    match cell(d, v) {
        Some((ks, ke)) => (ke - ks >= 20 && d[ks] == 0x76 && d[ks + 1] == 0x6b) ==> data_ok(
            d,
            u32_at(d, ks + 4),
            u32_at(d, ks + 8),
        ),
        None => true,
    }
}

/// Every value that an item table of a value list refers to can be read.
pub open spec fn value_items_ok(d: Seq<u8>, start: int, n: int) -> bool {
    forall|i: int|
        0 <= i < n ==> deref_ok(d, #[trigger] item(d, start, 4, i)) && value_ok(d, item(d, start, 4, i))
}

/// The value list of the key whose header starts at `s` can be walked.
pub open spec fn values_ok(d: Seq<u8>, s: int) -> bool {
    let v = u32_at(d, s + 40);
    v == NO_CELL || (deref_ok(d, v) && match cell(d, v) {
        Some((vs, ve)) => vs + u32_at(d, s + 36) * 4 <= ve ==> value_items_ok(d, vs, u32_at(d, s + 36)),
        None => true,
    })
}

/// Everything `nt_hive` looks up from the key at `k` can be looked up.
pub open spec fn local_ok(d: Seq<u8>, k: int) -> bool {
    match nk_start(d, k) {
        Some(s) => subkeys_ok(d, s) && values_ok(d, s),
        None => true,
    }
}

/// `c` is one of the offsets of an item table.
pub open spec fn in_items(d: Seq<u8>, start: int, n: int, size: int, c: int) -> bool {
    exists|i: int| 0 <= i < n && #[trigger] item(d, start, size, i) == c
}

/// `c` is one of the offsets of the leaf at `r` that an index root refers to.
pub open spec fn in_root_leaf(d: Seq<u8>, r: int, c: int) -> bool {
    match root_leaf(d, r) {
        Some((st, n, size)) => in_items(d, st, n, size, c),
        None => false,
    }
}

/// `c` is one of the offsets that the leaves of an index root list.
pub open spec fn in_index_root(d: Seq<u8>, start: int, n: int, c: int) -> bool {
    exists|i: int| 0 <= i < n && in_root_leaf(d, #[trigger] item(d, start, 4, i), c)
}

/// `c` is the offset of a key that the subkey list of the key at `k` lists.
pub open spec fn is_child(d: Seq<u8>, k: int, c: int) -> bool {
    &&& nk_start(d, c) is Some
    &&& nk_start(d, k) matches Some(s)
    &&& u32_at(d, s + 28) != NO_CELL
    &&& match leaf_list(d, u32_at(d, s + 28)) {
        Some((st, n, size)) => in_items(d, st, n, size, c),
        None => match index_root(d, u32_at(d, s + 28)) {
            Some((st, n)) => in_index_root(d, st, n, c),
            None => false,
        },
    }
}

/// The name of the key whose header starts at `s` is stored in Latin1, one
/// byte per character (flag `KEY_COMP_NAME`); otherwise in UTF-16.
pub open spec fn name_is_latin1(d: Seq<u8>, s: int) -> bool {
    (u16_at(d, s + 2) / 32) % 2 == 1
}

/// How many UTF-16 code units `nt_hive` compares of the name of the key
/// whose header starts at `s`.
pub open spec fn name_units(d: Seq<u8>, s: int) -> int {
    if name_is_latin1(d, s) {
        u16_at(d, s + 72)
    } else {
        u16_at(d, s + 72) / 2
    }
}

/// The `i`-th UTF-16 code unit of the name of the key whose header starts
/// at `s`.
pub open spec fn name_unit(d: Seq<u8>, s: int, i: int) -> int {
    if name_is_latin1(d, s) {
        d[s + 76 + i] as int
    } else {
        u16_at(d, s + 76 + 2 * i)
    }
}

/// The upper case of an ASCII code unit; other units unchanged.
pub open spec fn ascii_upper(u: int) -> int {
    if 0x61 <= u <= 0x7a {
        u - 32
    } else {
        u
    }
}

/// Every character of `t` is ASCII.
pub open spec fn is_ascii(t: Seq<char>) -> bool {
    forall|i: int| 0 <= i < t.len() ==> (#[trigger] t[i] as u32) < 128
}

/// The key at `c` surely does not match the path component `comp`. `nt_hive`
/// matches names by comparing UTF-16 code units after an upper-case table
/// that maps ASCII units to their ASCII upper case. So an ASCII component
/// does not match a readable name with another number of units, nor one
/// that holds, at some position, an ASCII unit whose upper case differs from
/// the component's there.
pub open spec fn name_differs(d: Seq<u8>, c: int, comp: Seq<char>) -> bool {
    &&& is_ascii(comp)
    &&& nk_start(d, c) matches Some(s)
    &&& cell(d, c) matches Some((cs, e))
    &&& s + 76 + u16_at(d, s + 72) <= e
    &&& (name_units(d, s) != comp.len() || exists|i: int|
        0 <= i < comp.len() && name_unit(d, s, i) < 128 && #[trigger] ascii_upper(name_unit(d, s, i))
            != ascii_upper(comp[i] as u32 as int))
}

/// Following the path components `comps` down from the key at `k`, then
/// reading the subkeys or values of the key reached, looks up only cells
/// that can be looked up. Empty components are skipped, as `nt_hive` skips
/// them. At each step the subkey list of the key is checked (its binary
/// search may look at any of its items), and the walk goes on into every
/// subkey that may match the next component.
pub open spec fn walk_ok(d: Seq<u8>, k: int, comps: Seq<Seq<char>>) -> bool
    decreases comps.len(),
{
    if comps.len() == 0 {
        local_ok(d, k)
    } else if comps[0].len() == 0 {
        walk_ok(d, k, comps.drop_first())
    } else {
        match nk_start(d, k) {
            None => true,
            Some(s) => subkeys_ok(d, s) && forall|c: int|
                #[trigger] is_child(d, k, c) && !name_differs(d, c, comps[0]) ==> walk_ok(
                    d,
                    c,
                    comps.drop_first(),
                ),
        }
    }
}

/// The hive file starts with the signature `regf`. (`Hive::new` panics
/// while it reports a wrong signature.)
pub open spec fn signature_ok(h: Seq<u8>) -> bool {
    h[0] == 0x72u8 && h[1] == 0x65u8 && h[2] == 0x67u8 && h[3] == 0x66u8
}

/// `nt_hive` opens the hive `h`, follows `path` from its root key and reads
/// the subkeys or the values of the key there without panicking. Bytes
/// shorter than a base block are refused by `Hive::new` with an error.
pub open spec fn path_safe(h: Seq<u8>, path: Seq<char>) -> bool {
    h.len() < BASE_BLOCK_LEN || ({
        let d = data_of(h);
        let root = u32_at(h, ROOT_OFFSET_FIELD as int);
        &&& signature_ok(h)
        &&& deref_ok(d, root)
        &&& walk_ok(d, root, split_spec(path, '\\'))
    })
}


/// The byte at `p` of the hive data.
fn rd8(h: &[u8], p: u64) -> (r: u8)
    requires
        h.len() >= BASE_BLOCK_LEN,
        p < h.len() - BASE_BLOCK_LEN,
    ensures
        r == data_of(h@)[p as int],
{
    h[BASE_BLOCK_LEN + p as usize]
}

/// The little-endian 16-bit value at `p` of the hive data.
fn rd16(h: &[u8], p: u64) -> (r: u64)
    requires
        h.len() >= BASE_BLOCK_LEN,
        p + 2 <= h.len() - BASE_BLOCK_LEN,
    ensures
        r as int == u16_at(data_of(h@), p as int),
        r < 0x1_0000,
{
    (rd8(h, p) as u64) + 256 * (rd8(h, p + 1) as u64)
}

/// The little-endian 32-bit value at `p` of the hive data.
fn rd32(h: &[u8], p: u64) -> (r: u64)
    requires
        h.len() >= BASE_BLOCK_LEN,
        p + 4 <= h.len() - BASE_BLOCK_LEN,
    ensures
        r as int == u32_at(data_of(h@), p as int),
        r < 0x1_0000_0000,
{
    (rd8(h, p) as u64) + 256 * (rd8(h, p + 1) as u64) + 65536 * (rd8(h, p + 2) as u64) + 16777216
        * (rd8(h, p + 3) as u64)
}

/// Whether looking up the cell at `o` does not panic.
fn deref_ok_exec(h: &[u8], o: u64) -> (r: bool)
    requires
        h.len() >= BASE_BLOCK_LEN,
        o < 0x1_0000_0000,
    ensures
        r == deref_ok(data_of(h@), o as int),
{
    let dl: u64 = (h.len() - BASE_BLOCK_LEN) as u64;
    if o == NO_CELL {
        false
    } else if o + 4 <= dl {
        rd32(h, o) != 0
    } else {
        true
    }
}

/// The contents range of the allocated cell at `o`.
fn cell_exec(h: &[u8], o: u64) -> (r: Option<(u64, u64)>)
    requires
        h.len() >= BASE_BLOCK_LEN,
        o < 0x1_0000_0000,
    ensures
        match r {
            Some((a, b)) => cell(data_of(h@), o as int) == Some((a as int, b as int)) && b
                <= data_of(h@).len(),
            None => cell(data_of(h@), o as int) is None,
        },
{
    let dl: u64 = (h.len() - BASE_BLOCK_LEN) as u64;
    if o + 4 > dl {
        return None;
    }
    let v: u64 = rd32(h, o);
    if v < 0x8000_0000 {
        return None;
    }
    let size: u64 = 0x1_0000_0000 - v;
    if size % 8 == 0 && o + size <= dl {
        Some((o + 4, o + size))
    } else {
        None
    }
}

/// Where the key node header in the cell at `o` starts, if it holds one.
fn nk_start_exec(h: &[u8], o: u64) -> (r: Option<u64>)
    requires
        h.len() >= BASE_BLOCK_LEN,
        o < 0x1_0000_0000,
    ensures
        match r {
            Some(s) => nk_start(data_of(h@), o as int) == Some(s as int) && s + 76
                <= data_of(h@).len(),
            None => nk_start(data_of(h@), o as int) is None,
        },
{
    match cell_exec(h, o) {
        Some((s, e)) => {
            if e - s >= 76 && rd8(h, s) == 0x6e && rd8(h, s + 1) == 0x6b {
                Some(s)
            } else {
                None
            }
        },
        None => None,
    }
}

/// The item table of the leaf in the cell at `l`.
fn leaf_list_exec(h: &[u8], l: u64) -> (r: Option<(u64, u64, u64)>)
    requires
        h.len() >= BASE_BLOCK_LEN,
        l < 0x1_0000_0000,
    ensures
        match r {
            Some((st, n, size)) => leaf_list(data_of(h@), l as int) == Some(
                (st as int, n as int, size as int),
            ) && st + n * size <= data_of(h@).len() && (size == 4 || size == 8) && n
                < 0x1_0000,
            None => leaf_list(data_of(h@), l as int) is None,
        },
{
    let (s, e) = match cell_exec(h, l) {
        Some(c) => c,
        None => return None,
    };
    if e - s < 4 {
        return None;
    }
    let a: u8 = rd8(h, s);
    let b: u8 = rd8(h, s + 1);
    let size: u64 = if a == 0x6c && (b == 0x66 || b == 0x68) {
        8
    } else if a == 0x6c && b == 0x69 {
        4
    } else {
        0
    };
    if size == 0 {
        return None;
    }
    let n: u64 = rd16(h, s + 2);
    if s + 4 + n * size <= e {
        Some((s + 4, n, size))
    } else {
        None
    }
}

/// The item table of the index root in the cell at `l`.
fn index_root_exec(h: &[u8], l: u64) -> (r: Option<(u64, u64)>)
    requires
        h.len() >= BASE_BLOCK_LEN,
        l < 0x1_0000_0000,
    ensures
        match r {
            Some((st, n)) => index_root(data_of(h@), l as int) == Some((st as int, n as int))
                && st + n * 4 <= data_of(h@).len() && n < 0x1_0000,
            None => index_root(data_of(h@), l as int) is None,
        },
{
    let (s, e) = match cell_exec(h, l) {
        Some(c) => c,
        None => return None,
    };
    if e - s < 4 {
        return None;
    }
    if rd8(h, s) != 0x72 || rd8(h, s + 1) != 0x69 {
        return None;
    }
    let n: u64 = rd16(h, s + 2);
    if s + 4 + n * 4 <= e {
        Some((s + 4, n))
    } else {
        None
    }
}

/// The `i`-th offset of an item table.
fn item_exec(h: &[u8], start: u64, n: u64, size: u64, i: u64) -> (r: u64)
    requires
        h.len() >= BASE_BLOCK_LEN,
        start + n * size <= data_of(h@).len(),
        size == 4 || size == 8,
        i < n,
    ensures
        r as int == item(data_of(h@), start as int, size as int, i as int),
        r < 0x1_0000_0000,
{
    assert(i * size + size <= n * size) by (nonlinear_arith)
        requires
            i < n,
            size >= 0,
    ;
    rd32(h, start + i * size)
}

/// Whether every offset in an item table can be looked up.
fn items_ok_exec(h: &[u8], start: u64, n: u64, size: u64) -> (r: bool)
    requires
        h.len() >= BASE_BLOCK_LEN,
        start + n * size <= data_of(h@).len(),
        size == 4 || size == 8,
    ensures
        r == items_ok(data_of(h@), start as int, n as int, size as int),
{
    let mut i: u64 = 0;
    while i < n
        invariant
            i <= n,
            h.len() >= BASE_BLOCK_LEN,
            start + n * size <= data_of(h@).len(),
            size == 4 || size == 8,
            forall|j: int|
                0 <= j < i ==> deref_ok(data_of(h@), #[trigger] item(data_of(h@), start as int, size as int, j)),
        decreases n - i,
    {
        let o: u64 = item_exec(h, start, n, size, i);
        if !deref_ok_exec(h, o) {
            return false;
        }
        i = i + 1;
    }
    true
}


/// Whether the subkey list of the key whose header starts at `s` can be walked.
fn subkeys_ok_exec(h: &[u8], s: u64) -> (r: bool)
    requires
        h.len() >= BASE_BLOCK_LEN,
        s + 76 <= data_of(h@).len(),
    ensures
        r == subkeys_ok(data_of(h@), s as int),
{
    let ghost d = data_of(h@);
    let l: u64 = rd32(h, s + 28);
    if l == NO_CELL {
        return true;
    }
    if !deref_ok_exec(h, l) {
        return false;
    }
    if let Some((st, n, size)) = leaf_list_exec(h, l) {
        return items_ok_exec(h, st, n, size);
    }
    let (st, n) = match index_root_exec(h, l) {
        Some(t) => t,
        None => return true,
    };
    let mut i: u64 = 0;
    while i < n
        invariant
            i <= n,
            h.len() >= BASE_BLOCK_LEN,
            d == data_of(h@),
            s + 76 <= d.len(),
            st + n * 4 <= d.len(),
            u32_at(d, s + 28) == l,
            l != NO_CELL,
            deref_ok(d, l as int),
            leaf_list(d, l as int) is None,
            index_root(d, l as int) == Some((st as int, n as int)),
            forall|j: int|
                0 <= j < i ==> deref_ok(d, #[trigger] item(d, st as int, 4, j)) && (root_leaf(
                    d,
                    item(d, st as int, 4, j),
                ) matches Some((st2, n2, size2)) ==> items_ok(d, st2, n2, size2)),
        decreases n - i,
    {
        let r: u64 = item_exec(h, st, n, 4, i);
        if !deref_ok_exec(h, r) {
            return false;
        }
        if let Some((st2, n2, size2)) = leaf_list_exec(h, r) {
            if n2 >= 1 && !items_ok_exec(h, st2, n2, size2) {
                return false;
            }
        }
        i = i + 1;
    }
    true
}

/// Whether the data of a value (size field `size`, data offset `off`) can be read.
fn data_ok_exec(h: &[u8], size: u64, off: u64) -> (r: bool)
    requires
        h.len() >= BASE_BLOCK_LEN,
        size < 0x1_0000_0000,
        off < 0x1_0000_0000,
    ensures
        r == data_ok(data_of(h@), size as int, off as int),
{
    if size >= 0x8000_0000 {
        return true;
    }
    if !deref_ok_exec(h, off) {
        return false;
    }
    if size <= BIG_DATA_SEGMENT_SIZE {
        return true;
    }
    let (bs, be) = match cell_exec(h, off) {
        Some(c) => c,
        None => return true,
    };
    if be - bs < 8 || rd8(h, bs) != 0x64 || rd8(h, bs + 1) != 0x62 {
        return true;
    }
    let count: u64 = rd16(h, bs + 2);
    if size > count * BIG_DATA_SEGMENT_SIZE {
        return true;
    }
    let list: u64 = rd32(h, bs + 4);
    if !deref_ok_exec(h, list) {
        return false;
    }
    match cell_exec(h, list) {
        Some((qs, qe)) => {
            if qs + count * 4 <= qe {
                items_ok_exec(h, qs, count, 4)
            } else {
                true
            }
        },
        None => true,
    }
}

/// Whether the value in the cell at `v` can be read.
fn value_ok_exec(h: &[u8], v: u64) -> (r: bool)
    requires
        h.len() >= BASE_BLOCK_LEN,
        v < 0x1_0000_0000,
    ensures
        r == value_ok(data_of(h@), v as int),
{
    match cell_exec(h, v) {
        Some((ks, ke)) => {
            if ke - ks >= 20 && rd8(h, ks) == 0x76 && rd8(h, ks + 1) == 0x6b {
                data_ok_exec(h, rd32(h, ks + 4), rd32(h, ks + 8))
            } else {
                true
            }
        },
        None => true,
    }
}

/// Whether the value list of the key whose header starts at `s` can be walked.
fn values_ok_exec(h: &[u8], s: u64) -> (r: bool)
    requires
        h.len() >= BASE_BLOCK_LEN,
        s + 76 <= data_of(h@).len(),
    ensures
        r == values_ok(data_of(h@), s as int),
{
    let ghost d = data_of(h@);
    let v: u64 = rd32(h, s + 40);
    if v == NO_CELL {
        return true;
    }
    if !deref_ok_exec(h, v) {
        return false;
    }
    let (vs, ve) = match cell_exec(h, v) {
        Some(c) => c,
        None => return true,
    };
    let n: u64 = rd32(h, s + 36);
    if vs + n * 4 > ve {
        return true;
    }
    let mut i: u64 = 0;
    while i < n
        invariant
            i <= n,
            h.len() >= BASE_BLOCK_LEN,
            d == data_of(h@),
            s + 76 <= d.len(),
            vs + n * 4 <= d.len(),
            u32_at(d, s + 40) == v,
            v != NO_CELL,
            deref_ok(d, v as int),
            cell(d, v as int) == Some((vs as int, ve as int)),
            u32_at(d, s + 36) == n,
            vs + n * 4 <= ve,
            forall|j: int|
                0 <= j < i ==> deref_ok(d, #[trigger] item(d, vs as int, 4, j)) && value_ok(
                    d,
                    item(d, vs as int, 4, j),
                ),
        decreases n - i,
    {
        let o: u64 = item_exec(h, vs, n, 4, i);
        if !deref_ok_exec(h, o) || !value_ok_exec(h, o) {
            return false;
        }
        i = i + 1;
    }
    true
}

/// Whether everything `nt_hive` looks up from the key at `k` can be looked up.
fn local_ok_exec(h: &[u8], k: u64) -> (r: bool)
    requires
        h.len() >= BASE_BLOCK_LEN,
        k < 0x1_0000_0000,
    ensures
        r == local_ok(data_of(h@), k as int),
{
    match nk_start_exec(h, k) {
        Some(s) => subkeys_ok_exec(h, s) && values_ok_exec(h, s),
        None => true,
    }
}


/// `c` is an element of `v`.
pub open spec fn in_vec(v: Seq<u64>, c: int) -> bool {
    exists|j: int| 0 <= j < v.len() && v[j] as int == c
}

proof fn lemma_in_vec_push(v: Seq<u64>, x: u64, c: int)
    ensures
        in_vec(v.push(x), c) <==> (in_vec(v, c) || x as int == c),
{
    if in_vec(v, c) {
        let j = choose|j: int| 0 <= j < v.len() && v[j] as int == c;
        assert(v.push(x)[j] == v[j]);
    }
    if x as int == c {
        assert(v.push(x)[v.len() as int] == x);
    }
    if in_vec(v.push(x), c) {
        let j = choose|j: int| 0 <= j < v.push(x).len() && v.push(x)[j] as int == c;
        if j < v.len() {
            assert(v[j] == v.push(x)[j]);
        }
    }
}

proof fn lemma_in_items_next(d: Seq<u8>, start: int, i: int, size: int, c: int)
    requires
        0 <= i,
    ensures
        in_items(d, start, i + 1, size, c) <==> (in_items(d, start, i, size, c) || item(d, start, size, i) == c),
{
    if item(d, start, size, i) == c {
        assert(in_items(d, start, i + 1, size, c));
    }
}

proof fn lemma_in_index_root_next(d: Seq<u8>, start: int, i: int, c: int)
    requires
        0 <= i,
    ensures
        in_index_root(d, start, i + 1, c) <==> (in_index_root(d, start, i, c) || in_root_leaf(
            d,
            item(d, start, 4, i),
            c,
        )),
{
    if in_root_leaf(d, item(d, start, 4, i), c) {
        assert(in_index_root(d, start, i + 1, c));
    }
}

/// The offsets of the keys that the subkey list of the key at `k` lists.
fn children_exec(h: &[u8], k: u64) -> (out: Vec<u64>)
    requires
        h.len() >= BASE_BLOCK_LEN,
        k < 0x1_0000_0000,
    ensures
        forall|c: int| #[trigger] is_child(data_of(h@), k as int, c) <==> in_vec(out@, c),
        forall|j: int| 0 <= j < out.len() ==> #[trigger] out[j] < 0x1_0000_0000,
{
    let ghost d = data_of(h@);
    let mut out: Vec<u64> = Vec::new();
    let s: u64 = match nk_start_exec(h, k) {
        Some(s) => s,
        None => return out,
    };
    let l: u64 = rd32(h, s + 28);
    if l == NO_CELL {
        return out;
    }
    if let Some((st, n, size)) = leaf_list_exec(h, l) {
        let mut i: u64 = 0;
        while i < n
            invariant
                i <= n,
                h.len() >= BASE_BLOCK_LEN,
                d == data_of(h@),
                st + n * size <= d.len(),
                size == 4 || size == 8,
                forall|c: int|
                    #![trigger in_vec(out@, c)]
                    in_vec(out@, c) <==> (nk_start(d, c) is Some && in_items(
                        d,
                        st as int,
                        i as int,
                        size as int,
                        c,
                    )),
                forall|j: int| 0 <= j < out.len() ==> #[trigger] out[j] < 0x1_0000_0000,
            decreases n - i,
        {
            let c: u64 = item_exec(h, st, n, size, i);
            let ghost before = out@;
            let keep: bool = nk_start_exec(h, c).is_some();
            if keep {
                out.push(c);
            }
            proof {
                assert forall|x: int|
                    #![trigger in_vec(out@, x)]
                    in_vec(out@, x) <==> (nk_start(d, x) is Some && in_items(
                        d,
                        st as int,
                        i + 1,
                        size as int,
                        x,
                    )) by {
                    lemma_in_items_next(d, st as int, i as int, size as int, x);
                    if keep {
                        lemma_in_vec_push(before, c, x);
                    }
                }
            }
            i = i + 1;
        }
        return out;
    }
    let (st, n) = match index_root_exec(h, l) {
        Some(t) => t,
        None => return out,
    };
    let mut i: u64 = 0;
    while i < n
        invariant
            i <= n,
            h.len() >= BASE_BLOCK_LEN,
            d == data_of(h@),
            st + n * 4 <= d.len(),
            forall|c: int|
                #![trigger in_vec(out@, c)]
                in_vec(out@, c) <==> (nk_start(d, c) is Some && in_index_root(d, st as int, i as int, c)),
            forall|j: int| 0 <= j < out.len() ==> #[trigger] out[j] < 0x1_0000_0000,
        decreases n - i,
    {
        let r: u64 = item_exec(h, st, n, 4, i);
        let ghost start_out = out@;
        match leaf_list_exec(h, r) {
            Some((st2, n2, size2)) if n2 >= 1 => {
                let mut j: u64 = 0;
                while j < n2
                    invariant
                        j <= n2,
                        h.len() >= BASE_BLOCK_LEN,
                        d == data_of(h@),
                        st2 + n2 * size2 <= d.len(),
                        size2 == 4 || size2 == 8,
                        forall|c: int|
                            #![trigger in_vec(out@, c)]
                            in_vec(out@, c) <==> (nk_start(d, c) is Some && (in_index_root(
                                d,
                                st as int,
                                i as int,
                                c,
                            ) || in_items(d, st2 as int, j as int, size2 as int, c))),
                        forall|x: int| 0 <= x < out.len() ==> #[trigger] out[x] < 0x1_0000_0000,
                    decreases n2 - j,
                {
                    let c: u64 = item_exec(h, st2, n2, size2, j);
                    let ghost before = out@;
                    let keep: bool = nk_start_exec(h, c).is_some();
                    if keep {
                        out.push(c);
                    }
                    proof {
                        assert forall|x: int|
                            #![trigger in_vec(out@, x)]
                            in_vec(out@, x) <==> (nk_start(d, x) is Some && (in_index_root(
                                d,
                                st as int,
                                i as int,
                                x,
                            ) || in_items(d, st2 as int, j + 1, size2 as int, x))) by {
                            lemma_in_items_next(d, st2 as int, j as int, size2 as int, x);
                            if keep {
                                lemma_in_vec_push(before, c, x);
                            }
                        }
                    }
                    j = j + 1;
                }
                proof {
                    assert forall|x: int|
                        #![trigger in_vec(out@, x)]
                        in_vec(out@, x) <==> (nk_start(d, x) is Some && in_index_root(
                            d,
                            st as int,
                            i + 1,
                            x,
                        )) by {
                        lemma_in_index_root_next(d, st as int, i as int, x);
                    }
                }
            },
            _ => {
                proof {
                    assert forall|x: int|
                        #![trigger in_vec(out@, x)]
                        in_vec(out@, x) <==> (nk_start(d, x) is Some && in_index_root(
                            d,
                            st as int,
                            i + 1,
                            x,
                        )) by {
                        lemma_in_index_root_next(d, st as int, i as int, x);
                    }
                }
            },
        }
        i = i + 1;
    }
    out
}


/// The upper case of an ASCII code unit; other units unchanged.
fn ascii_upper_exec(u: u64) -> (r: u64)
    ensures
        r == ascii_upper(u as int),
{
    if 0x61 <= u && u <= 0x7a {
        u - 32
    } else {
        u
    }
}

/// Whether the key at `c` surely does not match the path component `comp`.
fn name_differs_exec(h: &[u8], c: u64, comp: &Vec<char>) -> (r: bool)
    requires
        h.len() >= BASE_BLOCK_LEN,
        c < 0x1_0000_0000,
    ensures
        r == name_differs(data_of(h@), c as int, comp@),
{
    let ghost d = data_of(h@);
    let mut i: usize = 0;
    while i < comp.len()
        invariant
            i <= comp.len(),
            forall|j: int| 0 <= j < i ==> (#[trigger] comp@[j] as u32) < 128,
        decreases comp.len() - i,
    {
        if comp[i] as u32 >= 128 {
            return false;
        }
        i = i + 1;
    }
    assert(is_ascii(comp@));
    let s: u64 = match nk_start_exec(h, c) {
        Some(s) => s,
        None => return false,
    };
    let e: u64 = match cell_exec(h, c) {
        Some((_, e)) => e,
        None => return false,
    };
    let len: u64 = rd16(h, s + 72);
    if s + 76 + len > e {
        return false;
    }
    let latin1: bool = (rd16(h, s + 2) / 32) % 2 == 1;
    let units: u64 = if latin1 {
        len
    } else {
        len / 2
    };
    if units != comp.len() as u64 {
        return true;
    }
    let mut k: u64 = 0;
    while k < units
        invariant
            h.len() >= BASE_BLOCK_LEN,
            d == data_of(h@),
            nk_start(d, c as int) == Some(s as int),
            cell(d, c as int) matches Some((cs, ce)) && ce == e,
            e <= d.len(),
            s + 76 + len <= e,
            len == u16_at(d, s + 72),
            latin1 == name_is_latin1(d, s as int),
            units == name_units(d, s as int),
            units == comp.len(),
            is_ascii(comp@),
            k <= units,
            forall|j: int|
                0 <= j < k ==> !(name_unit(d, s as int, j) < 128 && #[trigger] ascii_upper(
                    name_unit(d, s as int, j),
                ) != ascii_upper(comp@[j] as u32 as int)),
        decreases units - k,
    {
        let u: u64 = if latin1 {
            rd8(h, s + 76 + k) as u64
        } else {
            rd16(h, s + 76 + 2 * k)
        };
        assert(u as int == name_unit(d, s as int, k as int));
        let x: u64 = (comp[k as usize] as u32) as u64;
        if u < 128 && ascii_upper_exec(u) != ascii_upper_exec(x) {
            assert(ascii_upper(name_unit(d, s as int, k as int)) != ascii_upper(comp@[k as int] as u32 as int));
            return true;
        }
        k = k + 1;
    }
    false
}

/// Whether following `comps` from the `i`-th component on, down from the
/// key at `k`, and reading the key reached looks up only cells that can be
/// looked up.
fn walk_exec(h: &[u8], k: u64, comps: &Vec<String>, i: usize) -> (r: bool)
    requires
        h.len() >= BASE_BLOCK_LEN,
        k < 0x1_0000_0000,
        i <= comps.len(),
    ensures
        r == walk_ok(data_of(h@), k as int, comps.deep_view().skip(i as int)),
    decreases comps.len() - i,
{
    let ghost d = data_of(h@);
    let ghost rest = comps.deep_view().skip(i as int);
    if i == comps.len() {
        assert(rest.len() == 0);
        return local_ok_exec(h, k);
    }
    assert(rest[0] == comps[i as int]@);
    assert(rest.drop_first() =~= comps.deep_view().skip(i + 1));
    let comp = chars_of(comps[i].as_str());
    if comp.len() == 0 {
        return walk_exec(h, k, comps, i + 1);
    }
    let s: u64 = match nk_start_exec(h, k) {
        Some(s) => s,
        None => return true,
    };
    if !subkeys_ok_exec(h, s) {
        return false;
    }
    let kids = children_exec(h, k);
    let mut j: usize = 0;
    while j < kids.len()
        invariant
            h.len() >= BASE_BLOCK_LEN,
            d == data_of(h@),
            k < 0x1_0000_0000,
            i < comps.len(),
            rest == comps.deep_view().skip(i as int),
            rest.len() > 0,
            rest[0] == comp@,
            comp@.len() > 0,
            rest.drop_first() == comps.deep_view().skip(i + 1),
            nk_start(d, k as int) == Some(s as int),
            subkeys_ok(d, s as int),
            forall|c: int| #[trigger] is_child(d, k as int, c) <==> in_vec(kids@, c),
            j <= kids.len(),
            forall|x: int| 0 <= x < kids.len() ==> #[trigger] kids@[x] < 0x1_0000_0000,
            forall|x: int|
                0 <= x < j ==> (!name_differs(d, #[trigger] kids@[x] as int, rest[0]) ==> walk_ok(
                    d,
                    kids@[x] as int,
                    rest.drop_first(),
                )),
        decreases kids.len() - j,
    {
        let c: u64 = kids[j];
        if !name_differs_exec(h, c, &comp) {
            if !walk_exec(h, c, comps, i + 1) {
                proof {
                    assert(kids@[j as int] as int == c as int);
                    assert(in_vec(kids@, c as int));
                    assert(is_child(d, k as int, c as int));
                }
                return false;
            }
        }
        j = j + 1;
    }
    proof {
        assert forall|c: int| #[trigger]
            is_child(d, k as int, c) && !name_differs(d, c, rest[0]) implies walk_ok(
            d,
            c,
            rest.drop_first(),
        ) by {
            assert(in_vec(kids@, c));
            let x = choose|x: int| 0 <= x < kids@.len() && kids@[x] as int == c;
            assert(kids@[x] as int == c);
        }
    }
    true
}

/// Whether `nt_hive` opens the hive `hive`, follows `path` from its root
/// key and reads the subkeys or the values of the key there without
/// panicking (see [`path_safe`]).
pub fn check_path(hive: &[u8], path: &str) -> (r: bool)
    ensures
        r == path_safe(hive@, path@),
{
    if hive.len() < BASE_BLOCK_LEN {
        return true;
    }
    if !(hive[0] == 0x72 && hive[1] == 0x65 && hive[2] == 0x67 && hive[3] == 0x66) {
        return false;
    }
    let root: u64 = (hive[36] as u64) + 256 * (hive[37] as u64) + 65536 * (hive[38] as u64)
        + 16777216 * (hive[39] as u64);
    assert(root as int == u32_at(hive@, ROOT_OFFSET_FIELD as int));
    if !deref_ok_exec(hive, root) {
        return false;
    }
    let comps = split_by_char(path, '\\');
    assert(comps.deep_view().skip(0) =~= comps.deep_view());
    walk_exec(hive, root, &comps, 0)
}

} // verus!
