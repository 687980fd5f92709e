//! `heapless::String`, the fixed-capacity text the firmware formats into with
//! `core::fmt`.
//!
//! Every item here is trusted: the contracts restate what `heapless` 0.8's
//! `String` (src/string.rs of that crate, a UTF-8 `Vec<u8, N>` that refuses a
//! push that does not fit) and `core::fmt`'s documented number formatting do,
//! in terms of a name for the bytes of each string capacity the library uses.
use vstd::prelude::*;
use core::fmt::Write;
use vstd::string::StringSliceAdditionalSpecFns;

verus! {

/// `heapless::String<N>`, UTF-8 text of at most `N` bytes stored inline.
#[verifier::external_type_specification]
#[verifier::external_body]
pub struct ExHeaplessString<const N: usize>(heapless::String<N>);

/// The bytes of a text of at most 8 bytes.
pub uninterp spec fn text8(s: heapless::String<8>) -> Seq<u8>;

/// The bytes of a text of at most 11 bytes.
pub uninterp spec fn text11(s: heapless::String<11>) -> Seq<u8>;

/// The bytes of a text of at most 16 bytes.
pub uninterp spec fn text16(s: heapless::String<16>) -> Seq<u8>;

/// The bytes of a text of at most 1536 bytes.
pub uninterp spec fn text1536(s: heapless::String<1536>) -> Seq<u8>;

/// What `write!(s, "{:02}:{:02}:{:02}", h, m, s)` leaves in an empty
/// `heapless::String<8>`: the pieces that `core::fmt` writes, up to the first
/// that no longer fits.
pub uninterp spec fn hms_text(h: u32, m: u32, s: u32) -> Seq<u8>;

/// ASCII decimal digits of `v`, without leading zeros ("0" for zero).
pub open spec fn dec_digits(v: nat) -> Seq<u8>
    decreases v,
{
    if v < 10 {
        seq![(48 + v) as u8]
    } else {
        dec_digits(v / 10).push((48 + v % 10) as u8)
    }
}

/// `v` in decimal, zero-padded on the left to at least `w` digits (`{:0w}`).
pub open spec fn zero_padded(v: nat, w: nat) -> Seq<u8> {
    let d = dec_digits(v);
    if d.len() < w {
        Seq::new((w - d.len()) as nat, |i: int| 48u8) + d
    } else {
        d
    }
}

/// Upper-case hexadecimal digit of `v` (below 16).
pub open spec fn hex_digit(v: nat) -> u8 {
    if v < 10 {
        (48 + v) as u8
    } else {
        (55 + v) as u8
    }
}

/// `id` as sixteen upper-case hexadecimal digits (`{:016X}`).
pub open spec fn hex16(id: u64) -> Seq<u8> {
    Seq::new(16, |i: int| hex_digit(((id as nat) / pow16((15 - i) as nat)) % 16))
}

pub open spec fn pow16(e: nat) -> nat
    decreases e,
{
    if e == 0 {
        1
    } else {
        16 * pow16((e - 1) as nat)
    }
}

/// `write!(t, "{:02}:{:02}:{:02}", h, m, s)` into an empty `heapless::String<8>`,
/// the error ignored as the firmware does. Claims: the result is named by
/// `hms_text`, holds at most 8 bytes, and is the full zero-padded text when all
/// three values have at most two digits (it then fits exactly); the truncation
/// that happens for longer values is left to the name.
#[verifier::external_body]
pub(crate) fn format_hms(h: u32, m: u32, s: u32) -> (r: heapless::String<8>)
    ensures
        text8(r) == hms_text(h, m, s),
        text8(r).len() <= 8,
        h < 100 && m < 100 && s < 100 ==> text8(r) == zero_padded(h as nat, 2) + seq![58u8]
            + zero_padded(m as nat, 2) + seq![58u8] + zero_padded(s as nat, 2),
{
    let mut t = heapless::String::<8>::new();
    write!(t, "{:02}:{:02}:{:02}", h, m, s).ok();
    t
}

/// `write!(t, "{:02}-{:02}-{:04}", day, month, year).unwrap()` into an empty
/// `heapless::String<11>`: day and month zero-padded to two digits, the year
/// to four; with these bounds the text has at most 11 bytes, so it fits and the
/// unwrap does not panic.
#[verifier::external_body]
pub(crate) fn format_date(day: u32, month: u32, year: i32) -> (r: heapless::String<11>)
    requires
        day < 100,
        month < 100,
        0 <= year < 100000,
    ensures
        text11(r) == zero_padded(day as nat, 2) + seq![45u8] + zero_padded(month as nat, 2) + seq![45u8]
            + zero_padded(year as nat, 4),
{
    let mut t = heapless::String::<11>::new();
    write!(t, "{:02}-{:02}-{:04}", day, month, year).unwrap();
    t
}

/// `write!(t, "{:016X}", id)` into an empty `heapless::String<16>`: sixteen
/// upper-case hexadecimal digits, which fit exactly.
#[verifier::external_body]
pub(crate) fn format_uid(id: u64) -> (r: heapless::String<16>)
    ensures
        text16(r) == hex16(id),
{
    let mut t = heapless::String::<16>::new();
    write!(t, "{:016X}", id).ok();
    t
}

/// `heapless::String::new`: an empty text.
#[verifier::external_body]
pub(crate) fn text1536_new() -> (r: heapless::String<1536>)
    ensures
        text1536(r) == Seq::<u8>::empty(),
{
    heapless::String::new()
}

/// `heapless::String::push_str` of a `heapless::String<8>` (through `as_str`):
/// appends its bytes when they fit, else leaves the text as it was.
#[verifier::external_body]
pub(crate) fn text1536_push_text8(s: &mut heapless::String<1536>, t: &heapless::String<8>) -> (r: Result<(), ()>)
    ensures
        r is Ok <==> text1536(*old(s)).len() + text8(*t).len() <= 1536,
        r is Ok ==> text1536(*final(s)) == text1536(*old(s)) + text8(*t),
        r is Err ==> text1536(*final(s)) == text1536(*old(s)),
{
    s.push_str(t.as_str())
}

/// `heapless::String::push_str`: appends the bytes of `t` when they fit, else
/// leaves the text as it was.
#[verifier::external_body]
pub(crate) fn text1536_push_str(s: &mut heapless::String<1536>, t: &str) -> (r: Result<(), ()>)
    ensures
        r is Ok <==> text1536(*old(s)).len() + t.spec_bytes().len() <= 1536,
        r is Ok ==> text1536(*final(s)) == text1536(*old(s)) + t.spec_bytes(),
        r is Err ==> text1536(*final(s)) == text1536(*old(s)),
{
    s.push_str(t)
}

} // verus!
