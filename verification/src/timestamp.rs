//! Registry timestamps: 64-bit little-endian counts of 100-nanosecond
//! intervals since 1601-01-01 00:00 (UTC), turned into ISO 8601 text.

use vstd::prelude::*;
use datetime::{LocalDate, LocalDateTime, LocalTime, Month, ISO};
use crate::text::{
    split_spec, split_by_char, char_count, lemma_split_len, concat_text, join_spec, law_split_join,
};

verus! {

/// The number that the bytes `b` encode in little-endian order.
pub open spec fn le_value(b: Seq<u8>) -> nat
    decreases b.len(),
{
    if b.len() == 0 {
        0
    } else {
        b[0] as nat + 256 * le_value(b.drop_first())
    }
}

/// `256` to the power `n`.
pub open spec fn pow256(n: nat) -> nat
    decreases n,
{
    if n == 0 {
        1
    } else {
        256 * pow256((n - 1) as nat)
    }
}

proof fn lemma_le_value_bound(b: Seq<u8>)
    ensures
        le_value(b) < pow256(b.len()),
    decreases b.len(),
{
    if b.len() > 0 {
        lemma_le_value_bound(b.drop_first());
        assert(le_value(b.drop_first()) + 1 <= pow256(b.drop_first().len()));
        assert(256 * le_value(b.drop_first()) + 256 <= 256 * pow256(b.drop_first().len()))
            by (nonlinear_arith)
            requires
                le_value(b.drop_first()) + 1 <= pow256(b.drop_first().len()),
        ;
    }
}

/// The value that the first eight bytes encode (`u64::from_le_bytes`).
fn u64_from_le(b: &Vec<u8>) -> (v: u64)
    requires
        b.len() == 8,
    ensures
        v as nat == le_value(b@),
{
    let mut v: u64 = 0;
    let mut k: usize = 8;
    proof {
        assert(b@.subrange(8, 8) =~= Seq::<u8>::empty());
        lemma_pow256_8();
    }
    while k > 0
        invariant
            k <= 8,
            b.len() == 8,
            v as nat == le_value(b@.subrange(k as int, 8)),
            pow256(8) == 0x1_0000_0000_0000_0000,
            pow256(7) == 0x1_0000_0000_0000_00,
        decreases k,
    {
        k = k - 1;
        let ghost rest = b@.subrange(k + 1, 8);
        proof {
            assert(b@.subrange(k as int, 8).drop_first() =~= rest);
            lemma_le_value_bound(rest);
            lemma_pow256_mono(rest.len(), 7);
            assert(v < pow256(7));

        }
        v = (b[k] as u64) + 256 * v;
    }
    assert(b@.subrange(0, 8) =~= b@);
    v
}

proof fn lemma_pow256_8()
    ensures
        pow256(7) == 0x1_0000_0000_0000_00,
        pow256(8) == 0x1_0000_0000_0000_0000,
{
    reveal_with_fuel(pow256, 9);
}

proof fn lemma_pow256_mono(a: nat, b: nat)
    requires
        a <= b,
    ensures
        pow256(a) <= pow256(b),
    decreases b,
{
    if a < b {
        lemma_pow256_mono(a, (b - 1) as nat);
    }
}

/// The number of whole seconds since 1601-01-01 00:00 that a raw registry
/// timestamp stands for.
pub open spec fn raw_seconds(raw: Seq<u8>) -> int {
    ((le_value(raw) * 100) / 1_000_000_000) as int
}

/// A raw registry timestamp can be converted: it is eight bytes long and its
/// count of nanoseconds fits in 64 bits.
pub open spec fn raw_timestamp_ok(raw: Seq<u8>) -> bool {
    raw.len() == 8 && le_value(raw) * 100 <= u64::MAX
}

/// The moment that a raw registry timestamp stands for.
pub fn rawvalue_to_timestamp(tmp: Vec<u8>) -> (moment: Timestamp)
    requires
        raw_timestamp_ok(tmp@),
    ensures
        moment@ == raw_seconds(tmp@),
{
    let bytes_to_nanos: u64 = u64_from_le(&tmp) * 100;
    let secs: u64 = bytes_to_nanos / 1_000_000_000;
    assert(secs <= MAX_SECONDS);
    Timestamp { seconds: secs as i64 }
}

/// The largest number of seconds that a convertible raw timestamp gives.
pub const MAX_SECONDS: i64 = 18_446_744_073;

/// A moment, as whole seconds after 1601-01-01 00:00, that a raw registry
/// timestamp can stand for: from 1601 to the seconds that the largest
/// convertible raw value gives.
pub struct Timestamp {
    seconds: i64,
}

impl Timestamp {
    #[verifier::type_invariant]
    spec fn in_range(self) -> bool {
        0 <= self.seconds <= MAX_SECONDS
    }

    /// The moment `seconds` after 1601-01-01 00:00, where a raw timestamp
    /// can stand for it.
    pub fn from_seconds(seconds: i64) -> (r: Option<Timestamp>)
        ensures
            r is Some <==> 0 <= seconds <= MAX_SECONDS,
            r matches Some(t) ==> t@ == seconds,
    {
        if 0 <= seconds && seconds <= MAX_SECONDS {
            Some(Timestamp { seconds })
        } else {
            None
        }
    }

    /// The whole seconds after 1601-01-01 00:00.
    pub fn seconds(&self) -> (r: i64)
        ensures
            r == self@,
            0 <= r <= MAX_SECONDS,
    {
        proof {
            use_type_invariant(self);
        }
        self.seconds
    }
}

impl View for Timestamp {
    type V = int;

    closed spec fn view(&self) -> int {
        self.seconds as int
    }
}

/// The ISO 8601 text (`YYYY-MM-DDTHH:MM:SS.mmm`) of the local date-time that
/// lies the given number of seconds after 1601-01-01 00:00.
pub uninterp spec fn iso_datetime_text(seconds_since_1601: int) -> Seq<char>;

/// Formats with the `datetime` crate: `LocalDateTime::new` of
/// `LocalDate::ymd(1601, January, 1)` and `LocalTime::hm(0, 0)`, then
/// `add_seconds(seconds)`, then `iso()` written with `to_string`.
/// Claimed: the text is `iso_datetime_text(seconds)`, and holds the letter
/// `T` exactly once (the crate writes the date in digits and `-`, a `T`, then
/// the time in digits, `:` and `.`). The calendar arithmetic is not stated.
#[verifier::external_body]
fn iso_since_1601(seconds: i64) -> (text: String)
    requires
        0 <= seconds <= MAX_SECONDS,
    ensures
        text@ == iso_datetime_text(seconds as int),
        char_count(text@, 'T') == 1,
{
    let date = LocalDate::ymd(1601, Month::January, 1).unwrap();
    let time = LocalTime::hm(0, 0).unwrap();
    LocalDateTime::new(date, time).add_seconds(seconds).iso().to_string()
}

/// Splits the ISO text of a moment into its date and its time.
pub fn split_iso_timestamp(iso_timestamp: Timestamp) -> (parts: Vec<String>)
    ensures
        parts.deep_view() == split_spec(iso_datetime_text(iso_timestamp@), 'T'),
        parts.len() == 2,
        join_spec(parts.deep_view(), 'T') == iso_datetime_text(iso_timestamp@),
{
    let iso = iso_since_1601(iso_timestamp.seconds());
    let parts = split_by_char(iso.as_str(), 'T');
    proof {
        lemma_split_len(iso@, 'T');
        law_split_join(iso@, 'T');
    }
    parts
}

/// The text that a raw registry timestamp is shown as: the date, a space,
/// then the time; `None` where the raw value cannot be converted.
pub open spec fn timestamp_text_spec(raw: Seq<u8>) -> Option<Seq<char>> {
    if raw_timestamp_ok(raw) {
        let parts = split_spec(iso_datetime_text(raw_seconds(raw)), 'T');
        Some(parts[0] + " "@ + parts[1])
    } else {
        None
    }
}

/// Converts a raw registry timestamp into the text `date time`.
pub fn extract_timestamp(raw: Vec<u8>) -> (text: Option<String>)
    ensures
        text.deep_view() == timestamp_text_spec(raw@),
{
    if raw.len() != 8 {
        return None;
    }
    let value: u64 = u64_from_le(&raw);
    if value > u64::MAX / 100 {
        return None;
    }
    let moment = rawvalue_to_timestamp(raw);
    let parts = split_iso_timestamp(moment);
    let date_and_space = concat_text(parts[0].as_str(), " ");
    Some(concat_text(date_and_space.as_str(), parts[1].as_str()))
}

} // verus!
