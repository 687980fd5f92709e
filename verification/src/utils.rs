//! Text and calendar helpers: clock times as "HH:MM:SS", day numbers as
//! proleptic Gregorian dates, chip ids as hexadecimal.
use vstd::prelude::*;
use vstd::string::StringSliceAdditionalSpecFns;
use crate::text::{format_date, format_hms, format_uid, hex16, hms_text, text11, text16, text8, zero_padded};

verus! {

/// Byte of the ASCII digit `c`, if it is one, as its value.
pub open spec fn digit_value(c: u8) -> int {
    c - 48
}

pub open spec fn is_digit(c: u8) -> bool {
    48 <= c <= 57
}

/// Value of a run of decimal digits, most significant first.
pub open spec fn digits_value(d: Seq<u8>) -> int
    decreases d.len(),
{
    if d.len() == 0 {
        0
    } else {
        digits_value(d.drop_last()) * 10 + digit_value(d.last())
    }
}

/// How `u32::from_str` reads text: an optional '+', then one or more decimal
/// digits whose value fits in a `u32`.
pub open spec fn spec_parse_u32(s: Seq<u8>) -> Option<u32> {
    let d = unsigned_digits(s);
    if d.len() > 0 && all_digits(d) && digits_value(d) <= u32::MAX {
        Some(digits_value(d) as u32)
    } else {
        None
    }
}

/// The text after an optional leading '+'.
pub open spec fn unsigned_digits(s: Seq<u8>) -> Seq<u8> {
    if s.len() > 0 && s[0] == 43u8 {
        s.drop_first()
    } else {
        s
    }
}

/// Every byte is an ASCII decimal digit.
pub open spec fn all_digits(d: Seq<u8>) -> bool {
    forall|i: int| 0 <= i < d.len() ==> is_digit(#[trigger] d[i])
}

proof fn lemma_digits_value_nonneg(d: Seq<u8>)
    requires
        forall|i: int| 0 <= i < d.len() ==> is_digit(#[trigger] d[i]),
    ensures
        digits_value(d) >= 0,
    decreases d.len(),
{
    if d.len() > 0 {
        lemma_digits_value_nonneg(d.drop_last());
    }
}

/// A longer run of digits is worth at least as much as its prefix.
proof fn lemma_digits_value_mono(d: Seq<u8>, n: int)
    requires
        0 <= n <= d.len(),
        forall|i: int| 0 <= i < d.len() ==> is_digit(#[trigger] d[i]),
    ensures
        digits_value(d.subrange(0, n)) <= digits_value(d),
    decreases d.len() - n,
{
    if n < d.len() {
        lemma_digits_value_mono(d, n + 1);
        let p = d.subrange(0, n + 1);
        assert(p.drop_last() =~= d.subrange(0, n));
        lemma_digits_value_nonneg(d.subrange(0, n));
    } else {
        assert(d.subrange(0, n) =~= d);
    }
}

/// Parses the bytes `s[lo..hi]` as `u32::from_str` does.
pub fn parse_u32_bytes(s: &[u8], lo: usize, hi: usize) -> (r: Option<u32>)
    requires
        lo <= hi <= s@.len(),
    ensures
        r == spec_parse_u32(s@.subrange(lo as int, hi as int)),
{
    let ghost whole = s@.subrange(lo as int, hi as int);
    let mut start = lo;
    if lo < hi && s[lo] == 43u8 {
        start = lo + 1;
    }
    let ghost d = s@.subrange(start as int, hi as int);
    assert(d =~= unsigned_digits(whole));
    if start == hi {
        return None;
    }
    let mut acc: u32 = 0;
    let mut i = start;
    while i < hi
        invariant
            lo <= start <= i <= hi <= s@.len(),
            d == s@.subrange(start as int, hi as int),
            d == unsigned_digits(s@.subrange(lo as int, hi as int)),
            forall|k: int| start <= k < i ==> is_digit(#[trigger] s@[k]),
            acc as int == digits_value(s@.subrange(start as int, i as int)),
        decreases hi - i,
    {
        let c = s[i];
        if c < 48 || c > 57 {
            assert(!is_digit(d[i - start]));
            assert(!all_digits(d));
            return None;
        }
        let v = (c - 48) as u32;
        proof {
            let p = s@.subrange(start as int, i + 1);
            assert(p.drop_last() =~= s@.subrange(start as int, i as int));
        }
        if acc > 429496729 || (acc == 429496729 && v > 5) {
            proof {
                assert(d.subrange(0, i + 1 - start) =~= s@.subrange(start as int, i + 1));
                if all_digits(d) {
                    lemma_digits_value_mono(d, i + 1 - start);
                }
            }
            return None;
        }
        acc = acc * 10 + v;
        i = i + 1;
    }
    assert(s@.subrange(start as int, i as int) =~= d);
    Some(acc)
}

/// Value of a run of decimal digits with an optional leading '+', when it is
/// one and at most `max`.
pub open spec fn spec_parse_unsigned(s: Seq<u8>, max: int) -> Option<int> {
    let d = unsigned_digits(s);
    if d.len() > 0 && all_digits(d) && digits_value(d) <= max {
        Some(digits_value(d))
    } else {
        None
    }
}

/// How `i32::from_str` reads text: an optional '+' or '-', then one or more
/// decimal digits whose signed value fits in an `i32`.
pub open spec fn spec_parse_i32(s: Seq<u8>) -> Option<i32> {
    if s.len() > 0 && s[0] == 45u8 {
        let d = s.drop_first();
        if d.len() > 0 && all_digits(d) && digits_value(d) <= 0x8000_0000 {
            Some((-digits_value(d)) as i32)
        } else {
            None
        }
    } else {
        match spec_parse_unsigned(s, i32::MAX as int) {
            Some(v) => Some(v as i32),
            None => None,
        }
    }
}

/// Parses the bytes `s[lo..hi]` as an unsigned decimal of at most `max`, as
/// `FromStr` does for unsigned integers.
pub fn parse_unsigned_bytes(s: &[u8], lo: usize, hi: usize, max: u64) -> (r: Option<u64>)
    requires
        lo <= hi <= s@.len(),
    ensures
        r matches Some(v) ==> spec_parse_unsigned(s@.subrange(lo as int, hi as int), max as int) == Some(v as int),
        r is None ==> spec_parse_unsigned(s@.subrange(lo as int, hi as int), max as int) is None,
{
    let ghost whole = s@.subrange(lo as int, hi as int);
    let mut start = lo;
    if lo < hi && s[lo] == 43u8 {
        start = lo + 1;
    }
    let ghost d = s@.subrange(start as int, hi as int);
    assert(d =~= unsigned_digits(whole));
    if start == hi {
        return None;
    }
    let mut acc: u64 = 0;
    let mut i = start;
    while i < hi
        invariant
            lo <= start <= i <= hi <= s@.len(),
            d == s@.subrange(start as int, hi as int),
            d == unsigned_digits(s@.subrange(lo as int, hi as int)),
            forall|k: int| start <= k < i ==> is_digit(#[trigger] s@[k]),
            acc as int == digits_value(s@.subrange(start as int, i as int)),
            acc <= max,
        decreases hi - i,
    {
        let c = s[i];
        if c < 48 || c > 57 {
            assert(!is_digit(d[i - start]));
            assert(!all_digits(d));
            return None;
        }
        let v = (c - 48) as u64;
        proof {
            let p = s@.subrange(start as int, i + 1);
            assert(p.drop_last() =~= s@.subrange(start as int, i as int));
        }
        if v > max || acc > (max - v) / 10 {
            proof {
                if v <= max {
                    assert(acc * 10 + v > max) by (nonlinear_arith)
                        requires
                            acc > (max - v) / 10,
                            v <= max,
                    ;
                }
                assert(d.subrange(0, i + 1 - start) =~= s@.subrange(start as int, i + 1));
                if all_digits(d) {
                    lemma_digits_value_mono(d, i + 1 - start);
                }
            }
            return None;
        }
        proof {
            assert(acc * 10 + v <= max) by (nonlinear_arith)
                requires
                    acc <= (max - v) / 10,
                    v <= max,
            ;
        }
        acc = acc * 10 + v;
        i = i + 1;
    }
    assert(s@.subrange(start as int, i as int) =~= d);
    Some(acc)
}

/// Parses `text` as `usize::from_str` does.
pub fn parse_usize(text: &str) -> (r: Option<usize>)
    ensures
        r matches Some(v) ==> spec_parse_unsigned(text.spec_bytes(), usize::MAX as int) == Some(v as int),
        r is None ==> spec_parse_unsigned(text.spec_bytes(), usize::MAX as int) is None,
{
    let b = text.as_bytes();
    match parse_unsigned_bytes(b, 0, b.len(), usize::MAX as u64) {
        Some(v) => {
            assert(b@.subrange(0, b@.len() as int) =~= b@);
            Some(v as usize)
        },
        None => {
            assert(b@.subrange(0, b@.len() as int) =~= b@);
            None
        },
    }
}

/// Parses `text` as `u32::from_str` does.
pub fn parse_u32(text: &str) -> (r: Option<u32>)
    ensures
        r == spec_parse_u32(text.spec_bytes()),
{
    let b = text.as_bytes();
    let r = parse_u32_bytes(b, 0, b.len());
    assert(b@.subrange(0, b@.len() as int) =~= b@);
    r
}

/// Parses `text` as `i32::from_str` does.
pub fn parse_i32(text: &str) -> (r: Option<i32>)
    ensures
        r == spec_parse_i32(text.spec_bytes()),
{
    let b = text.as_bytes();
    let n = b.len();
    assert(b@.subrange(0, n as int) =~= b@);
    if n > 0 && b[0] == 45u8 {
        assert(b@.subrange(1, n as int) =~= b@.drop_first());
        if n == 1 {
            return None;
        }
        assert(unsigned_digits(b@.drop_first()) == b@.drop_first() || b@[1] == 43u8);
        // A second sign is not a digit: read the rest as plain digits.
        if b[1] < 48 || b[1] > 57 {
            assert(!is_digit(b@.drop_first()[0]));
            assert(!all_digits(b@.drop_first()));
            return None;
        }
        assert(unsigned_digits(b@.drop_first()) == b@.drop_first());
        match parse_unsigned_bytes(b, 1, n, 0x8000_0000) {
            Some(v) => Some((0 - v as i64) as i32),
            None => None,
        }
    } else {
        match parse_unsigned_bytes(b, 0, n, 0x7fff_ffff) {
            Some(v) => Some(v as i32),
            None => None,
        }
    }
}

/// Index of the first byte `c` in `b` at or after `from`, or the length when there is none.
pub open spec fn first_index(b: Seq<u8>, c: u8, from: int) -> int
    decreases b.len() - from,
{
    if from >= b.len() {
        b.len() as int
    } else if b[from] == c {
        from
    } else {
        first_index(b, c, from + 1)
    }
}

proof fn lemma_first_index(b: Seq<u8>, c: u8, from: int)
    requires
        0 <= from <= b.len(),
    ensures
        from <= first_index(b, c, from) <= b.len(),
        first_index(b, c, from) < b.len() ==> b[first_index(b, c, from)] == c,
        forall|k: int| from <= k < first_index(b, c, from) ==> b[k] != c,
    decreases b.len() - from,
{
    if from < b.len() && b[from] != c {
        lemma_first_index(b, c, from + 1);
    }
}

/// The text holds at most two ':' (a third makes the split overflow its buffer).
pub open spec fn at_most_two_colons(b: Seq<u8>) -> bool {
    let i = first_index(b, 58u8, 0);
    let j = first_index(b, 58u8, i + 1);
    i >= b.len() || j >= b.len() || first_index(b, 58u8, j + 1) >= b.len()
}

/// Hours, minutes and seconds of "H:M:S": exactly two ':' and three parts that
/// each read as a `u32`.
pub open spec fn spec_time_fields(b: Seq<u8>) -> Option<(u32, u32, u32)> {
    let i = first_index(b, 58u8, 0);
    let j = first_index(b, 58u8, i + 1);
    if i >= b.len() || j >= b.len() || first_index(b, 58u8, j + 1) < b.len() {
        None
    } else {
        match (
            spec_parse_u32(b.subrange(0, i)),
            spec_parse_u32(b.subrange(i + 1, j)),
            spec_parse_u32(b.subrange(j + 1, b.len() as int)),
        ) {
            (Some(h), Some(m), Some(s)) => Some((h, m, s)),
            _ => None,
        }
    }
}

/// Seconds since midnight of the fields, where they were read.
pub open spec fn spec_time_str_to_seconds(b: Seq<u8>) -> Option<u32> {
    match spec_time_fields(b) {
        Some((h, m, s)) => Some((h * 3600 + m * 60 + s) as u32),
        None => None,
    }
}

/// The fields of a time text, where it has them, add up without overflow.
pub open spec fn time_str_fits(b: Seq<u8>) -> bool {
    match spec_time_fields(b) {
        Some((h, m, s)) => h * 3600 + m * 60 + s <= u32::MAX,
        None => true,
    }
}

/// Reads "H:M:S" as seconds since midnight (no range check on the fields).
pub fn time_str_to_seconds(time_str: &str) -> (r: Option<u32>)
    requires
        at_most_two_colons(time_str.spec_bytes()),
        time_str_fits(time_str.spec_bytes()),
    ensures
        r == spec_time_str_to_seconds(time_str.spec_bytes()),
{
    let b = time_str.as_bytes();
    let n = b.len();
    proof {
        lemma_first_index(b@, 58u8, 0);
    }
    let i = find_byte(b, 58u8, 0);
    if i == n {
        return None;
    }
    proof {
        lemma_first_index(b@, 58u8, i + 1);
    }
    let j = find_byte(b, 58u8, i + 1);
    if j == n {
        return None;
    }
    let hours = match parse_u32_bytes(b, 0, i) {
        Some(v) => v,
        None => return None,
    };
    let minutes = match parse_u32_bytes(b, i + 1, j) {
        Some(v) => v,
        None => return None,
    };
    let seconds = match parse_u32_bytes(b, j + 1, n) {
        Some(v) => v,
        None => return None,
    };
    Some(hours * 3600 + minutes * 60 + seconds)
}

/// Whether `time_str_to_seconds` can read `time_str`: at most two ':' and,
/// where the three fields read, a sum that fits a `u32`.
pub fn time_str_readable(time_str: &str) -> (r: bool)
    ensures
        r == (at_most_two_colons(time_str.spec_bytes()) && time_str_fits(time_str.spec_bytes())),
{
    let b = time_str.as_bytes();
    let n = b.len();
    proof {
        lemma_first_index(b@, 58u8, 0);
    }
    let i = find_byte(b, 58u8, 0);
    if i == n {
        return true;
    }
    proof {
        lemma_first_index(b@, 58u8, i + 1);
    }
    let j = find_byte(b, 58u8, i + 1);
    if j == n {
        return true;
    }
    proof {
        lemma_first_index(b@, 58u8, j + 1);
    }
    let k = find_byte(b, 58u8, j + 1);
    if k < n {
        return false;
    }
    let hours = match parse_u32_bytes(b, 0, i) {
        Some(v) => v,
        None => return true,
    };
    let minutes = match parse_u32_bytes(b, i + 1, j) {
        Some(v) => v,
        None => return true,
    };
    let seconds = match parse_u32_bytes(b, j + 1, n) {
        Some(v) => v,
        None => return true,
    };
    (hours as u64) * 3600 + (minutes as u64) * 60 + (seconds as u64) <= u32::MAX as u64
}

/// Index of the first byte `c` at or after `from`, or the length.
pub fn find_byte(b: &[u8], c: u8, from: usize) -> (r: usize)
    requires
        from <= b@.len(),
    ensures
        r == first_index(b@, c, from as int),
{
    let n = b.len();
    let mut k = from;
    while k < n && b[k] != c
        invariant
            n == b@.len(),
            from <= k <= n,
            first_index(b@, c, k as int) == first_index(b@, c, from as int),
        decreases n - k,
    {
        k = k + 1;
    }
    k
}

/// The text "HH:00:00" with two decimal digits reads as that many whole hours.
pub proof fn lemma_whole_hour_text(b: Seq<u8>, tens: u8, ones: u8)
    requires
        is_digit(tens),
        is_digit(ones),
        b == seq![tens, ones, 58u8, 48u8, 48u8, 58u8, 48u8, 48u8],
    ensures
        at_most_two_colons(b),
        time_str_fits(b),
        spec_time_str_to_seconds(b) == Some((((tens - 48) * 10 + (ones - 48)) * 3600) as u32),
{
    reveal_with_fuel(first_index, 10);
    reveal_with_fuel(digits_value, 3);
    assert(first_index(b, 58u8, 0) == 2);
    assert(first_index(b, 58u8, 3) == 5);
    assert(first_index(b, 58u8, 6) == 8);
    let h = b.subrange(0, 2);
    let z = b.subrange(3, 5);
    assert(h =~= seq![tens, ones]);
    assert(z =~= seq![48u8, 48u8]);
    assert(b.subrange(6, 8) =~= z);
    assert(h.drop_last() =~= seq![tens]);
    assert(z.drop_last() =~= seq![48u8]);
    assert(seq![tens].drop_last() =~= Seq::<u8>::empty());
    assert(seq![48u8].drop_last() =~= Seq::<u8>::empty());
    assert(digits_value(h) == (tens - 48) * 10 + (ones - 48));
    assert(digits_value(z) == 0);
    assert(unsigned_digits(h) == h);
    assert(unsigned_digits(z) == z);
    assert(all_digits(h));
    assert(all_digits(z));
}

/// Two zero-padded decimal digits of a value below 100.
proof fn lemma_two_digits(v: nat)
    requires
        v < 100,
    ensures
        zero_padded(v, 2) == seq![(48 + v / 10) as u8, (48 + v % 10) as u8],
{
    reveal_with_fuel(crate::text::dec_digits, 2);
    if v < 10 {
        assert(zero_padded(v, 2) =~= seq![48u8] + seq![(48 + v) as u8]);
    } else {
        assert(crate::text::dec_digits(v) =~= seq![(48 + v / 10) as u8, (48 + v % 10) as u8]);
    }
}

/// The time text "HH:MM:SS" reads back as the seconds it was made from: what
/// `seconds_to_time_str` writes for less than 100 hours, `time_str_to_seconds`
/// reads as the same number of seconds.
pub proof fn lemma_time_text_roundtrip(t: u32)
    requires
        t < 360000,
    ensures
        ({
            let b = zero_padded((t / 3600) as nat, 2) + seq![58u8] + zero_padded(((t % 3600) / 60) as nat, 2) + seq![58u8]
                + zero_padded((t % 60) as nat, 2);
            &&& at_most_two_colons(b)
            &&& time_str_fits(b)
            &&& spec_time_str_to_seconds(b) == Some(t)
        }),
{
    let h = (t / 3600) as nat;
    let m = ((t % 3600) / 60) as nat;
    let sec = (t % 60) as nat;
    lemma_two_digits(h);
    lemma_two_digits(m);
    lemma_two_digits(sec);
    let b = zero_padded(h, 2) + seq![58u8] + zero_padded(m, 2) + seq![58u8] + zero_padded(sec, 2);
    let hs = seq![(48 + h / 10) as u8, (48 + h % 10) as u8];
    let ms = seq![(48 + m / 10) as u8, (48 + m % 10) as u8];
    let ss = seq![(48 + sec / 10) as u8, (48 + sec % 10) as u8];
    assert(b =~= seq![hs[0], hs[1], 58u8, ms[0], ms[1], 58u8, ss[0], ss[1]]);
    reveal_with_fuel(first_index, 10);
    reveal_with_fuel(digits_value, 3);
    assert(first_index(b, 58u8, 0) == 2);
    assert(first_index(b, 58u8, 3) == 5);
    assert(first_index(b, 58u8, 6) == 8);
    assert(b.subrange(0, 2) =~= hs);
    assert(b.subrange(3, 5) =~= ms);
    assert(b.subrange(6, 8) =~= ss);
    assert(hs.drop_last() =~= seq![hs[0]]);
    assert(ms.drop_last() =~= seq![ms[0]]);
    assert(ss.drop_last() =~= seq![ss[0]]);
    assert(seq![hs[0]].drop_last() =~= Seq::<u8>::empty());
    assert(seq![ms[0]].drop_last() =~= Seq::<u8>::empty());
    assert(seq![ss[0]].drop_last() =~= Seq::<u8>::empty());
    assert(digits_value(hs) == h);
    assert(digits_value(ms) == m);
    assert(digits_value(ss) == sec);
    assert(unsigned_digits(hs) == hs);
    assert(unsigned_digits(ms) == ms);
    assert(unsigned_digits(ss) == ss);
    assert(all_digits(hs));
    assert(all_digits(ms));
    assert(all_digits(ss));
    assert(h * 3600 + m * 60 + sec == t);
}

/// `m as i32` for a `u32`: the same bits read as two's complement.
pub open spec fn as_i32(m: u32) -> int {
    if m <= i32::MAX {
        m as int
    } else {
        m - 0x1_0000_0000
    }
}

/// Division rounding toward zero, as Rust's `/` on signed integers.
pub open spec fn trunc_div(a: int, b: int) -> int {
    if a >= 0 {
        a / b
    } else {
        -((-a) / b)
    }
}

/// The year `y` shifted so that years start on March 1st (January and
/// February count to the year before), as `days_from_civil` computes it.
pub open spec fn march_year(y: i32, m: u32) -> int {
    y - (if as_i32(m) <= 2 { 1int } else { 0int })
}

/// Days from 1970-01-01 to `d`.`m`.`y` of the proleptic Gregorian calendar:
/// whole 400-year eras since year 0 (from March 1st), years of the era with
/// their leap days, and days of the March-based year.
pub open spec fn spec_days_from_civil(y: i32, m: u32, d: u32) -> int {
    let ys = march_year(y, m);
    let era = ys / 400;
    let yoe = ys % 400;
    let mp = as_i32(m) + (if as_i32(m) > 2 { -3int } else { 9int });
    let doy = trunc_div(153 * mp + 2, 5) + d - 1;
    let doe = yoe * 365 + yoe / 4 - yoe / 100 + doy;
    era * 146097 + doe - 719468
}

/// Year (March-based era year), month and day of day number `days`.
pub open spec fn spec_date_from_days(days: i64) -> (i32, u32, u32) {
    let z = days + 719468;
    let era = z / 146097;
    let doe = z % 146097;
    let yoe = (doe - doe / 1460 + doe / 36524 - doe / 146096) / 365;
    let doy = doe - (365 * yoe + yoe / 4 - yoe / 100);
    let mp = (5 * doy + 2) / 153;
    let d = doy - (153 * mp + 2) / 5 + 1;
    let m = mp + (if mp < 10 { 3int } else { -9int });
    let y = yoe + era * 400 + (if m <= 2 { 1int } else { 0int });
    (y as i32, m as u32, d as u32)
}

/// Days since the Unix epoch (1970-01-01). Works for all proleptic Gregorian dates.
pub fn days_from_civil(y: i32, m: u32, d: u32) -> (r: i64)
    requires
        march_year(y, m) >= i32::MIN + 399,
    ensures
        r == spec_days_from_civil(y, m, d),
{
    // Shift March to month 0 to simplify leap-year math.
    let m_i32 = #[verifier::truncate] (m as i32);
    proof {
        if m <= 0x7fff_ffff {
            assert(m_i32 == m) by (bit_vector)
                requires
                    m_i32 == m as i32,
                    m <= 0x7fff_ffff,
            ;
        } else {
            assert(m_i32 == m - 0x1_0000_0000) by (bit_vector)
                requires
                    m_i32 == m as i32,
                    m > 0x7fff_ffff,
            ;
        }
    }
    let mut y = y;
    y -= if m_i32 <= 2 { 1 } else { 0 };

    // Floor-divide by 400-year eras.
    let era = (if y >= 0 { y } else { y - 399 }) / 400;
    let yoe = (y - era * 400) as i64;
    let mp = (m_i32 + if m_i32 > 2 { -3 } else { 9 }) as i64;
    let doy = (153 * mp + 2) / 5 + d as i64 - 1;
    let doe = yoe * 365 + yoe / 4 - yoe / 100 + doy;
    proof {
        let ys = y as int;
        if ys < 0 {
            assert(era == ys / 400) by (nonlinear_arith)
                requires
                    ys < 0,
                    era == -((-(ys - 399)) / 400),
            ;
        }
        assert(yoe == ys % 400) by (nonlinear_arith)
            requires
                era == ys / 400,
                yoe == ys - era * 400,
        ;
    }
    // 719_468 = days from 0000-03-01 to 1970-01-01
    era as i64 * 146_097 + doe - 719_468
}

/// Inverse of `days_from_civil`.
#[verifier::rlimit(40)]
pub fn date_from_days(days: i64) -> (r: (i32, u32, u32))
    requires
        days <= i64::MAX - 719468,
        days + 719468 >= i64::MIN + 146096,
    ensures
        r == spec_date_from_days(days),
{
    // Translate to days since 0000-03-01 to use the March-based arithmetic.
    let z = days + 719_468;
    let era = (if z >= 0 { z } else { z - 146_096 }) / 146_097;
    let doe = z - era * 146_097;
    proof {
        let zi = z as int;
        if zi < 0 {
            assert(era == zi / 146097) by (nonlinear_arith)
                requires
                    zi < 0,
                    era == -((-(zi - 146096)) / 146097),
            ;
        }
        assert(doe == zi % 146097) by (nonlinear_arith)
            requires
                era == zi / 146097,
                doe == zi - era * 146097,
        ;
    }
    assert(0 <= doe < 146097);
    assert(-63_200_000_000_000 <= era <= 63_200_000_000_000);
    let yoe = (doe - doe / 1460 + doe / 36524 - doe / 146096) / 365;
    assert(0 <= yoe <= 401) by (nonlinear_arith)
        requires
            0 <= doe < 146097,
            yoe == (doe - doe / 1460 + doe / 36524 - doe / 146096) / 365,
    ;
    let mut y = yoe + era * 400;
    let doy = doe - (365 * yoe + yoe / 4 - yoe / 100);
    assert(-200_000 <= doy <= 200_000);
    let mp = (5 * doy + 2) / 153;
    assert(-10_000 <= mp <= 10_000);
    let d = #[verifier::truncate] ((doy - (153 * mp + 2) / 5 + 1) as u32);
    let m_i64 = mp + if mp < 10 { 3 } else { -9 };
    let m = #[verifier::truncate] (m_i64 as u32);
    // Undo the March shift: Jan/Feb belong to the next civil year.
    y += if m <= 2 { 1 } else { 0 };
    let year = #[verifier::truncate] (y as i32);
    (year, m, d)
}

/// The chip id as sixteen upper-case hexadecimal digits.
pub fn uid_to_str(id: u64) -> (r: heapless::String<16>)
    ensures
        text16(r) == hex16(id),
{
    format_uid(id)
}

/// Text of a time of day in seconds: what `"{:02}:{:02}:{:02}"` of its hours,
/// minutes and seconds leaves in an 8-byte string.
pub open spec fn time_text(seconds: u32) -> Seq<u8> {
    hms_text(seconds / 3600, (seconds % 3600) / 60, seconds % 60)
}

/// "HH:MM:SS" of a time in seconds; exact for less than 100 hours, cut short
/// where a longer hour count does not fit in the 8 bytes.
pub fn seconds_to_time_str(seconds: u32) -> (r: heapless::String<8>)
    ensures
        text8(r) == time_text(seconds),
        text8(r).len() <= 8,
        seconds < 360000 ==> text8(r) == zero_padded((seconds / 3600) as nat, 2) + seq![58u8]
            + zero_padded(((seconds % 3600) / 60) as nat, 2) + seq![58u8] + zero_padded((seconds % 60) as nat, 2),
{
    let hours = seconds / 3600;
    let minutes = (seconds % 3600) / 60;
    let secs = seconds % 60;
    format_hms(hours, minutes, secs)
}

/// "DD-MM-YYYY" of a day number (days since 1970-01-01).
pub fn date_to_str(days: u32) -> (r: heapless::String<11>)
    requires
        spec_date_from_days(days as i64).0 < 100000,
    ensures
        ({
            let (year, month, day) = spec_date_from_days(days as i64);
            text11(r) == zero_padded(day as nat, 2) + seq![45u8] + zero_padded(month as nat, 2) + seq![45u8]
                + zero_padded(year as nat, 4)
        }),
{
    let (year, month, day) = date_from_days(days as i64);
    proof {
        lemma_date_fields(days as i64);
    }
    format_date(day, month, year)
}

/// Month and day of any day number are in range, and a day number from 1970 on
/// falls in year 1970 or later.
proof fn lemma_date_fields(days: i64)
    requires
        0 <= days <= u32::MAX,
    ensures
        1 <= spec_date_from_days(days).1 <= 12,
        1 <= spec_date_from_days(days).2 <= 31,
        spec_date_from_days(days).0 >= 0,
{
    let z = days + 719468;
    let era = z / 146097;
    let doe = z % 146097;
    let yoe = (doe - doe / 1460 + doe / 36524 - doe / 146096) / 365;
    assert(0 <= yoe <= 399) by (nonlinear_arith)
        requires
            0 <= doe < 146097,
            yoe == (doe - doe / 1460 + doe / 36524 - doe / 146096) / 365,
    ;
    let doy = doe - (365 * yoe + yoe / 4 - yoe / 100);
    assert(0 <= doy <= 365) by (nonlinear_arith)
        requires
            0 <= doe < 146097,
            yoe == (doe - doe / 1460 + doe / 36524 - doe / 146096) / 365,
            doy == doe - (365 * yoe + yoe / 4 - yoe / 100),
    ;
    let mp = (5 * doy + 2) / 153;
    assert(0 <= mp <= 11);
    let d = doy - (153 * mp + 2) / 5 + 1;
    assert(1 <= d <= 31);
    assert(era >= 4 && era <= 30000);
    let y = yoe + era * 400 + (if mp + (if mp < 10 { 3int } else { -9int }) <= 2 { 1int } else { 0int });
    assert(0 <= y < 0x7fff_ffff);
    assert(spec_date_from_days(days).0 == y as i32);
}

/// Gregorian leap year.
pub open spec fn is_leap_year(y: int) -> bool {
    (y % 4 == 0 && y % 100 != 0) || y % 400 == 0
}

/// Days in month `m` (1 to 12) of year `y`.
pub open spec fn days_in_month(y: int, m: int) -> int {
    if m == 2 {
        if is_leap_year(y) { 29 } else { 28 }
    } else if m == 4 || m == 6 || m == 9 || m == 11 {
        30
    } else {
        31
    }
}

/// `d`.`m`.`y` is a date of the proleptic Gregorian calendar.
pub open spec fn valid_date(y: i32, m: u32, d: u32) -> bool {
    1 <= m <= 12 && 1 <= d <= days_in_month(y as int, m as int)
}

/// The year of era recovered from a day of era: exact for every day of a
/// March-based year (day 365 only in years whose February has 29 days).
proof fn lemma_yoe_recovered(yoe: u32, doy: u32)
    by (bit_vector)
    requires
        yoe < 400,
        doy <= 365,
        doy == 365 ==> (yoe % 4 == 3 && (yoe % 100 != 99 || yoe == 399)),
    ensures
        ((yoe * 365 + yoe / 4 - yoe / 100 + doy) - (yoe * 365 + yoe / 4 - yoe / 100 + doy) / 1460
            + (yoe * 365 + yoe / 4 - yoe / 100 + doy) / 36524 - (yoe * 365 + yoe / 4 - yoe / 100 + doy) / 146096) / 365 == yoe,
{
}

/// Leap years repeat every 400 years.
proof fn lemma_leap_mod_400(y: int)
    ensures
        is_leap_year(y) == {
            let r = y % 400;
            (r % 4 == 0 && r % 100 != 0) || r == 0
        },
{
    let r = y % 400;
    assert(y % 4 == r % 4) by (nonlinear_arith)
        requires
            r == y % 400,
    ;
    assert(y % 100 == r % 100) by (nonlinear_arith)
        requires
            r == y % 400,
    ;
}

/// `date_from_days` is the inverse of `days_from_civil`: the day number of a
/// date gives the date back.
pub proof fn lemma_date_roundtrip(y: i32, m: u32, d: u32)
    requires
        valid_date(y, m, d),
        march_year(y, m) >= i32::MIN + 399,
    ensures
        spec_date_from_days(spec_days_from_civil(y, m, d) as i64) == (y, m, d),
{
    let ys = march_year(y, m);
    let era = ys / 400;
    let yoe = ys % 400;
    assert(as_i32(m) == m);
    let mp = m + (if m > 2 { -3int } else { 9int });
    assert(0 <= mp < 12);
    let doy = trunc_div(153 * mp + 2, 5) + d - 1;
    assert(trunc_div(153 * mp + 2, 5) == (153 * mp + 2) / 5);
    // The February of a March-based year belongs to the next civil year.
    lemma_leap_mod_400(ys + 1);
    assert((ys + 1) % 400 == (yoe + 1) % 400) by (nonlinear_arith)
        requires
            yoe == ys % 400,
    ;
    if mp == 11 {
        assert(m == 2);
        assert(y == ys + 1);
    }
    lemma_yoe_recovered(yoe as u32, doy as u32);
    let doe = yoe * 365 + yoe / 4 - yoe / 100 + doy;
    let days = era * 146097 + doe - 719468;
    assert(spec_days_from_civil(y, m, d) == days);
    let z = days + 719468;
    assert(z == era * 146097 + doe);
    assert(0 <= doe <= 146096);
    assert(z / 146097 == era && z % 146097 == doe) by (nonlinear_arith)
        requires
            z == era * 146097 + doe,
            0 <= doe < 146097,
    ;
    assert(i64::MIN <= days <= i64::MAX) by (nonlinear_arith)
        requires
            days == era * 146097 + doe - 719468,
            -0x8000_0000 <= ys < 0x8000_0000,
            era == ys / 400,
            0 <= doe < 146097,
    ;
    let r = spec_date_from_days(days as i64);
    assert(r == (y, m, d));
}


/// The year of day number `days`, before it is narrowed to `i32`.
pub open spec fn civil_year(days: i64) -> int {
    let z = days + 719468;
    let era = z / 146097;
    let doe = z % 146097;
    let yoe = (doe - doe / 1460 + doe / 36524 - doe / 146096) / 365;
    let doy = doe - (365 * yoe + yoe / 4 - yoe / 100);
    let mp = (5 * doy + 2) / 153;
    let m = mp + (if mp < 10 { 3int } else { -9int });
    yoe + era * 400 + (if m <= 2 { 1int } else { 0int })
}

/// `days_from_civil` undoes `date_from_days`: the date of a day number gives
/// the day number back, wherever that date's year is an `i32` that
/// `days_from_civil` takes.
pub proof fn lemma_days_roundtrip(days: i64)
    requires
        i32::MIN <= civil_year(days) <= i32::MAX,
        march_year(spec_date_from_days(days).0, spec_date_from_days(days).1) >= i32::MIN + 399,
    ensures
        ({
            let (y, m, d) = spec_date_from_days(days);
            spec_days_from_civil(y, m, d) == days
        }),
{
    let z = days + 719468;
    let era = z / 146097;
    let doe = z % 146097;
    assert(z == era * 146097 + doe && 0 <= doe < 146097) by (nonlinear_arith)
        requires
            era == z / 146097,
            doe == z % 146097,
    ;
    let yoe = (doe - doe / 1460 + doe / 36524 - doe / 146096) / 365;
    assert(0 <= yoe <= 399) by (nonlinear_arith)
        requires
            0 <= doe < 146097,
            yoe == (doe - doe / 1460 + doe / 36524 - doe / 146096) / 365,
    ;
    let doy = doe - (365 * yoe + yoe / 4 - yoe / 100);
    assert(0 <= doy <= 365) by (nonlinear_arith)
        requires
            0 <= doe < 146097,
            yoe == (doe - doe / 1460 + doe / 36524 - doe / 146096) / 365,
            doy == doe - (365 * yoe + yoe / 4 - yoe / 100),
    ;
    let mp = (5 * doy + 2) / 153;
    assert(0 <= mp <= 11);
    let d = doy - (153 * mp + 2) / 5 + 1;
    assert(1 <= d <= 31);
    let m = mp + (if mp < 10 { 3int } else { -9int });
    assert(1 <= m <= 12);
    let y = yoe + era * 400 + (if m <= 2 { 1int } else { 0int });
    assert(y == civil_year(days));
    let (yy, mm, dd) = spec_date_from_days(days);
    assert(yy == y && mm == m && dd == d);
    assert(as_i32(mm) == m);
    let ys = march_year(yy, mm);
    assert(ys == yoe + era * 400);
    assert(ys / 400 == era && ys % 400 == yoe) by (nonlinear_arith)
        requires
            ys == yoe + era * 400,
            0 <= yoe < 400,
    ;
    assert(trunc_div(153 * mp + 2, 5) == (153 * mp + 2) / 5);
}

} // verus!
