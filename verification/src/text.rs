//! Character-level text helpers: splitting, substring search and
//! conversions between strings and character vectors.

use vstd::prelude::*;
use vstd::utf8::*;
use vstd::string::StringExecFns;

verus! {

/// The pieces that `str::split` with a one-character separator yields,
/// defined by adding one character at a time at the end.
pub open spec fn split_spec(s: Seq<char>, sep: char) -> Seq<Seq<char>>
    decreases s.len(),
{
    if s.len() == 0 {
        seq![Seq::<char>::empty()]
    } else {
        let parts = split_spec(s.drop_last(), sep);
        if s.last() == sep {
            parts.push(Seq::<char>::empty())
        } else {
            parts.update(parts.len() - 1, parts.last().push(s.last()))
        }
    }
}

/// Splitting always yields at least one piece.
pub proof fn lemma_split_nonempty(s: Seq<char>, sep: char)
    ensures
        split_spec(s, sep).len() >= 1,
    decreases s.len(),
{
    if s.len() > 0 {
        lemma_split_nonempty(s.drop_last(), sep);
    }
}

/// The pieces put back together with `sep` between each two
/// (`[..].join(sep)`).
pub open spec fn join_spec(parts: Seq<Seq<char>>, sep: char) -> Seq<char>
    decreases parts.len(),
{
    if parts.len() == 0 {
        Seq::<char>::empty()
    } else if parts.len() == 1 {
        parts[0]
    } else {
        join_spec(parts.drop_last(), sep).push(sep) + parts.last()
    }
}

/// Joining the pieces of a split with the separator gives back the text.
pub proof fn law_split_join(s: Seq<char>, sep: char)
    ensures
        join_spec(split_spec(s, sep), sep) == s,
    decreases s.len(),
{
    if s.len() > 0 {
        let rest = s.drop_last();
        let parts = split_spec(rest, sep);
        law_split_join(rest, sep);
        lemma_split_nonempty(rest, sep);
        let whole = split_spec(s, sep);
        if s.last() == sep {
            assert(whole.drop_last() =~= parts);
            assert(join_spec(whole, sep) =~= rest.push(sep));
        } else if parts.len() == 1 {
            assert(join_spec(whole, sep) =~= rest.push(s.last()));
        } else {
            assert(whole.drop_last() =~= parts.drop_last());
            let head = join_spec(parts.drop_last(), sep).push(sep);
            assert(head + parts.last().push(s.last()) =~= (head + parts.last()).push(s.last()));
        }
        assert(rest.push(s.last()) =~= s);
    }
}

/// The number of times `c` occurs in `s`.
pub open spec fn char_count(s: Seq<char>, c: char) -> nat
    decreases s.len(),
{
    if s.len() == 0 {
        0
    } else {
        char_count(s.drop_last(), c) + if s.last() == c { 1nat } else { 0nat }
    }
}

/// Splitting at a separator yields one piece more than the separator occurs.
pub proof fn lemma_split_len(s: Seq<char>, sep: char)
    ensures
        split_spec(s, sep).len() == char_count(s, sep) + 1,
    decreases s.len(),
{
    if s.len() > 0 {
        lemma_split_len(s.drop_last(), sep);
        lemma_split_nonempty(s.drop_last(), sep);
    }
}

/// Appends one character to a string (`String::push`).
#[verifier::external_body]
pub(crate) fn push_char(s: &mut String, c: char)
    ensures
        final(s)@ == old(s)@.push(c),
{
    s.push(c);
}

/// The characters of a string, in order.
pub fn chars_of(s: &str) -> (v: Vec<char>)
    ensures
        v@ == s@,
{
    let mut v: Vec<char> = Vec::new();
    for c in it: s.chars()
        invariant
            v@ == it.seq().take(it.index()),
    {
        v.push(c);
    }
    v
}

/// A string made of the given characters.
pub fn string_from_chars(v: &Vec<char>) -> (s: String)
    ensures
        s@ == v@,
{
    let mut s = String::new();
    let mut i: usize = 0;
    while i < v.len()
        invariant
            i <= v.len(),
            s@ == v@.take(i as int),
        decreases v.len() - i,
    {
        push_char(&mut s, v[i]);
        assert(v@.take(i + 1) == v@.take(i as int).push(v@[i as int]));
        i = i + 1;
    }
    assert(v@.take(v.len() as int) == v@);
    s
}


/// Splitting a longer text extends the pieces of the shorter one.
proof fn lemma_split_step(s: Seq<char>, i: int, sep: char)
    requires
        0 <= i < s.len(),
    ensures
        split_spec(s.take(i + 1), sep) == (if s[i] == sep {
            split_spec(s.take(i), sep).push(Seq::<char>::empty())
        } else {
            let parts = split_spec(s.take(i), sep);
            parts.update(parts.len() - 1, parts.last().push(s[i]))
        }),
{
    assert(s.take(i + 1).drop_last() == s.take(i));
}

/// Splits a string at every occurrence of a one-character separator
/// (`str::split` with a `char` pattern, collected).
pub fn split_by_char(s: &str, sep: char) -> (parts: Vec<String>)
    ensures
        parts.deep_view() == split_spec(s@, sep),
{
    let chars = chars_of(s);
    let mut parts: Vec<String> = Vec::new();
    let mut current: Vec<char> = Vec::new();
    let mut i: usize = 0;
    while i < chars.len()
        invariant
            i <= chars.len(),
            chars@ == s@,
            parts.deep_view().push(current@) == split_spec(s@.take(i as int), sep),
        decreases chars.len() - i,
    {
        let c: char = chars[i];
        proof {
            lemma_split_step(s@, i as int, sep);
            lemma_split_nonempty(s@.take(i as int), sep);
        }
        let ghost before = parts.deep_view().push(current@);
        if c == sep {
            let piece = string_from_chars(&current);
            parts.push(piece);
            current = Vec::new();
            assert(parts.deep_view() =~= before);
        } else {
            current.push(c);
            assert(parts.deep_view().push(current@) =~= before.update(
                before.len() - 1,
                before.last().push(c),
            ));
        }
        i = i + 1;
    }
    let ghost before = parts.deep_view().push(current@);
    let piece = string_from_chars(&current);
    parts.push(piece);
    assert(parts.deep_view() =~= before);
    assert(s@.take(chars.len() as int) == s@);
    parts
}


/// `pat` occurs in `s` starting at index `i`.
pub open spec fn occurs_at(s: Seq<char>, pat: Seq<char>, i: int) -> bool {
    0 <= i && i + pat.len() <= s.len() && s.subrange(i, i + pat.len()) == pat
}

/// `pat` occurs somewhere in `s` (`str::contains`).
pub open spec fn contains_spec(s: Seq<char>, pat: Seq<char>) -> bool {
    exists|i: int| occurs_at(s, pat, i)
}

/// Whether `pat` occurs at index `i` of `s`.
fn occurs_at_exec(s: &Vec<char>, pat: &Vec<char>, i: usize) -> (r: bool)
    requires
        i + pat.len() <= s.len(),
    ensures
        r == occurs_at(s@, pat@, i as int),
{
    let mut j: usize = 0;
    while j < pat.len()
        invariant
            j <= pat.len(),
            i + pat.len() <= s.len(),
            forall|k: int| 0 <= k < j ==> s@[i + k] == pat@[k],
        decreases pat.len() - j,
    {
        if s[i + j] != pat[j] {
            assert(s@.subrange(i as int, i + pat.len())[j as int] != pat@[j as int]);
            return false;
        }
        j = j + 1;
    }
    assert(s@.subrange(i as int, i + pat.len()) =~= pat@);
    true
}

/// Whether `pat` occurs in `s` (`str::contains` with a string pattern).
pub fn contains_text(s: &str, pat: &str) -> (r: bool)
    ensures
        r == contains_spec(s@, pat@),
{
    let sc = chars_of(s);
    let pc = chars_of(pat);
    if pc.len() > sc.len() {
        return false;
    }
    let last: usize = sc.len() - pc.len();
    let mut i: usize = 0;
    while i < last
        invariant
            i <= last,
            last == sc.len() - pc.len(),
            sc@ == s@,
            pc@ == pat@,
            forall|k: int| 0 <= k < i ==> !occurs_at(s@, pat@, k),
        decreases last - i,
    {
        if occurs_at_exec(&sc, &pc, i) {
            return true;
        }
        i = i + 1;
    }
    occurs_at_exec(&sc, &pc, last)
}

/// The text whose UTF-8 encoding is the bytes `start..end` of the encoding of
/// `s`, when both ends fall on character boundaries (`&s[start..end]`).
pub open spec fn byte_slice_spec(s: Seq<char>, start: int, end: int) -> Option<Seq<char>> {
    let b = encode_utf8(s);
    if 0 <= start <= end <= b.len() && is_char_boundary(b, start) && is_char_boundary(b, end) {
        Some(decode_utf8(b.subrange(start, end)))
    } else {
        None
    }
}

/// A byte-indexed slice of a string, or `None` where `&s[start..end]` would
/// panic (out of range, or an end inside a character).
pub fn slice_by_bytes(s: &str, start: usize, end: usize) -> (r: Option<String>)
    ensures
        r.deep_view() == byte_slice_spec(s@, start as int, end as int),
{
    broadcast use group_utf8_lib;

    let len: usize = s.as_bytes().len();
    if start > end || end > len {
        return None;
    }
    if !s.is_char_boundary(start) || !s.is_char_boundary(end) {
        return None;
    }
    let ghost b = encode_utf8(s@);
    let (head, _tail) = s.split_at(end);
    proof {
        assert(encode_utf8(head@) == b.subrange(0, end as int));
        assert(valid_utf8(encode_utf8(head@)));
        let hb = encode_utf8(head@);
        if start < end {
            assert(hb[start as int] == b[start as int]);
            assert(is_char_boundary(hb, start as int) <==> !is_continuation_byte(hb[start as int]));
            assert(is_char_boundary(b, start as int) <==> !is_continuation_byte(b[start as int]));
        } else {
            assert(is_char_boundary(hb, hb.len() as int));
        }
    }
    let (_front, piece) = head.split_at(start);
    let r = piece.to_owned();
    proof {
        assert(encode_utf8(piece@) == b.subrange(start as int, end as int));
        assert(decode_utf8(encode_utf8(r@)) == r@);
    }
    Some(r)
}

/// Decodes bytes as UTF-8 (`std::str::from_utf8`), giving an owned copy of
/// the text; `None` where the bytes are not valid UTF-8.
#[verifier::external_body]
pub(crate) fn text_from_utf8(bytes: &[u8]) -> (r: Option<String>)
    ensures
        r is Some <==> valid_utf8(bytes@),
        r matches Some(t) ==> t@ == decode_utf8(bytes@),
{
    match std::str::from_utf8(bytes) {
        Ok(t) => Some(t.to_owned()),
        Err(_) => None,
    }
}

/// Each non-zero byte taken as the character with that code point, in order.
pub open spec fn nonzero_bytes_as_chars(b: Seq<u8>) -> Seq<char>
    decreases b.len(),
{
    if b.len() == 0 {
        Seq::<char>::empty()
    } else {
        let rest = nonzero_bytes_as_chars(b.drop_last());
        if b.last() == 0 {
            rest
        } else {
            rest.push(b.last() as char)
        }
    }
}

/// The text made of the non-zero bytes of the UTF-8 encoding of `s`, each
/// byte taken as one character.
pub fn nonzero_bytes_text(s: &str) -> (r: String)
    ensures
        r@ == nonzero_bytes_as_chars(encode_utf8(s@)),
{
    let bytes = s.as_bytes();
    let mut r = String::new();
    let mut i: usize = 0;
    while i < bytes.len()
        invariant
            i <= bytes.len(),
            bytes@ == encode_utf8(s@),
            r@ == nonzero_bytes_as_chars(bytes@.take(i as int)),
        decreases bytes.len() - i,
    {
        let c: u8 = bytes[i];
        assert(bytes@.take(i + 1).drop_last() == bytes@.take(i as int));
        if c != 0 {
            push_char(&mut r, c as char);
        }
        i = i + 1;
    }
    assert(bytes@.take(bytes.len() as int) == bytes@);
    r
}


/// The first index at or after `start` at which `b` holds `x`.
pub open spec fn first_byte_from(b: Seq<u8>, x: u8, start: int) -> Option<int>
    decreases b.len() - start,
{
    if start < 0 || start >= b.len() {
        None
    } else if b[start] == x {
        Some(start)
    } else {
        first_byte_from(b, x, start + 1)
    }
}

/// The index of the first occurrence of byte `x` in `b`.
pub fn find_byte(b: &[u8], x: u8) -> (r: Option<usize>)
    ensures
        match r {
            Some(i) => first_byte_from(b@, x, 0) == Some(i as int),
            None => first_byte_from(b@, x, 0) is None,
        },
{
    let mut i: usize = 0;
    while i < b.len()
        invariant
            i <= b.len(),
            first_byte_from(b@, x, 0) == first_byte_from(b@, x, i as int),
        decreases b.len() - i,
    {
        if b[i] == x {
            return Some(i);
        }
        i = i + 1;
    }
    None
}

/// The concatenation of two texts.
pub fn concat_text(a: &str, b: &str) -> (r: String)
    ensures
        r@ == a@ + b@,
{
    let mut r = a.to_owned();
    r.append(b);
    r
}

} // verus!
