//! The USB terminal: how a typed line is split and read as a command, and how
//! the terminal's state moves with commands, answers from the control task and
//! the host's DTR line. Reading and writing the USB endpoint is the caller's.
use vstd::prelude::*;
use vstd::string::StringSliceAdditionalSpecFns;
use crate::hvec::{words128_items, words128_new, words128_push};
use crate::messages::{IntReqMsg, IntResMsg};
use crate::types::config::Config;
use crate::types::{MAX_MIDPOINTS, SECONDS_PER_DAY};
use crate::utils::{
    at_most_two_colons, parse_i32, parse_u32, parse_usize, spec_parse_i32, spec_parse_u32, spec_parse_unsigned,
    spec_time_str_to_seconds, time_str_fits, time_str_readable, time_str_to_seconds,
};

verus! {

/// Unicode `White_Space`, as `char::is_whitespace` and `str::split_whitespace` use it.
pub open spec fn is_ws(c: char) -> bool {
    ('\u{9}' <= c && c <= '\u{d}') || c == ' ' || c == '\u{85}' || c == '\u{a0}' || c == '\u{1680}'
        || ('\u{2000}' <= c && c <= '\u{200a}') || c == '\u{2028}' || c == '\u{2029}' || c == '\u{202f}'
        || c == '\u{205f}' || c == '\u{3000}'
}

/// Whether `c` is white space.
pub fn is_whitespace(c: char) -> (r: bool)
    ensures
        r == is_ws(c),
{
    ('\u{9}' <= c && c <= '\u{d}') || c == ' ' || c == '\u{85}' || c == '\u{a0}' || c == '\u{1680}'
        || ('\u{2000}' <= c && c <= '\u{200a}') || c == '\u{2028}' || c == '\u{2029}' || c == '\u{202f}'
        || c == '\u{205f}' || c == '\u{3000}'
}

/// The words of `s`: its maximal runs of non-white-space characters, in order.
pub open spec fn spec_words(s: Seq<char>) -> Seq<Seq<char>>
    decreases s.len(),
{
    if s.len() == 0 {
        Seq::empty()
    } else {
        let w = spec_words(s.drop_last());
        let c = s.last();
        if is_ws(c) {
            w
        } else if s.len() > 1 && !is_ws(s[s.len() - 2]) {
            w.update(w.len() - 1, w.last().push(c))
        } else {
            w.push(seq![c])
        }
    }
}

proof fn lemma_words_last(s: Seq<char>, st: int)
    requires
        0 <= st < s.len(),
        st == 0 || is_ws(s[st - 1]),
        forall|k: int| st <= k < s.len() ==> !is_ws(s[k]),
    ensures
        spec_words(s).len() == spec_words(s.take(st)).len() + 1,
        spec_words(s).take(spec_words(s).len() - 1) == spec_words(s.take(st)),
        spec_words(s).last() == s.subrange(st, s.len() as int),
    decreases s.len(),
{
    assert(s.drop_last() =~= s.take(s.len() - 1));
    if s.len() - 1 == st {
        assert(s.take(st) =~= s.drop_last());
        assert(s.subrange(st, s.len() as int) =~= seq![s.last()]);
        let w = spec_words(s.drop_last());
        assert(spec_words(s).take(spec_words(s).len() - 1) =~= w);
    } else {
        lemma_words_last(s.drop_last(), st);
        assert(s.drop_last().take(st) =~= s.take(st));
        assert(s[s.len() - 2] == s.drop_last().last());
        let w = spec_words(s.drop_last());
        assert(s.subrange(st, s.len() as int) =~= s.drop_last().subrange(st, s.len() - 1).push(s.last()));
        assert(spec_words(s).take(spec_words(s).len() - 1) =~= w.take(w.len() - 1));
    }
}

proof fn lemma_words_ws_suffix(s: Seq<char>, from: int)
    requires
        0 <= from <= s.len(),
        forall|k: int| from <= k < s.len() ==> is_ws(s[k]),
    ensures
        spec_words(s) == spec_words(s.take(from)),
    decreases s.len(),
{
    if s.len() > from {
        assert(s.drop_last() =~= s.take(s.len() - 1));
        lemma_words_ws_suffix(s.drop_last(), from);
        assert(s.drop_last().take(from) =~= s.take(from));
    } else {
        assert(s.take(from) =~= s);
    }
}

/// The text of each word.
pub open spec fn word_texts(words: Seq<&str>) -> Seq<Seq<char>> {
    words.map_values(|w: &str| w@)
}

/// Splits a line into its words, as `str::split_whitespace` does.
pub fn split_words<'a>(line: &'a str) -> (r: Vec<&'a str>)
    ensures
        word_texts(r@) == spec_words(line@),
{
    let n = line.unicode_len();
    let mut words: Vec<&'a str> = Vec::new();
    let mut start: Option<usize> = None;
    let mut i: usize = 0;
    while i < n
        invariant
            n == line@.len(),
            i <= n,
            match start {
                None => word_texts(words@) == spec_words(line@.take(i as int))
                    && (i == 0 || is_ws(line@[i - 1])),
                Some(st) => st < i && (st == 0 || is_ws(line@[st - 1]))
                    && (forall|k: int| st <= k < i ==> !is_ws(line@[k]))
                    && word_texts(words@) == spec_words(line@.take(st as int)),
            },
        decreases n - i,
    {
        let c = line.get_char(i);
        let ghost pre = line@.take(i + 1);
        proof {
            assert(pre.drop_last() =~= line@.take(i as int));
            assert(pre.last() == c);
        }
        if is_whitespace(c) {
            match start {
                Some(st) => {
                    let w = line.substring_char(st, i);
                    proof {
                        lemma_words_last(line@.take(i as int), st as int);
                        assert(line@.take(i as int).take(st as int) =~= line@.take(st as int));
                        assert(line@.take(i as int).subrange(st as int, i as int) =~= line@.subrange(st as int, i as int));
                    }
                    let ghost before = words@;
                    words.push(w);
                    proof {
                        let sw = spec_words(line@.take(i as int));
                        assert(word_texts(words@) =~= word_texts(before).push(w@));
                        assert(sw =~= sw.take(sw.len() - 1).push(sw.last()));
                    }
                    start = None;
                },
                None => {},
            }
        } else {
            if start.is_none() {
                start = Some(i);
            }
        }
        i = i + 1;
    }
    match start {
        Some(st) => {
            let w = line.substring_char(st, n);
            proof {
                assert(line@.take(n as int) =~= line@);
                lemma_words_last(line@, st as int);
            }
            let ghost before = words@;
            words.push(w);
            proof {
                let sw = spec_words(line@);
                assert(word_texts(words@) =~= word_texts(before).push(w@));
                assert(sw =~= sw.take(sw.len() - 1).push(sw.last()));
            }
        },
        None => {
            proof {
                assert(line@.take(n as int) =~= line@);
            }
        },
    }
    words
}

/// Whether the word is the literal `lit`.
pub fn word_is(w: &str, lit: &str) -> (r: bool)
    ensures
        r == (w@ == lit@),
{
    let n = w.unicode_len();
    let m = lit.unicode_len();
    if n != m {
        return false;
    }
    let mut i: usize = 0;
    while i < n
        invariant
            n == w@.len(),
            m == lit@.len(),
            n == m,
            i <= n,
            forall|k: int| 0 <= k < i ==> w@[k] == lit@[k],
        decreases n - i,
    {
        if w.get_char(i) != lit.get_char(i) {
            return false;
        }
        i = i + 1;
    }
    assert(w@ =~= lit@);
    true
}

/// An argument of a command, checked against its range: the value, out of the
/// range, or missing or not a number.
#[derive(Clone, Copy, Debug, PartialEq, Eq, Structural)]
pub enum ArgCheck<T> {
    Valid(T),
    OutOfRange,
    Missing,
}

/// How an optional word reads as a `u32` in `[min, max]`.
pub open spec fn check_u32(word: Option<Seq<u8>>, min: u32, max: u32) -> ArgCheck<u32> {
    match word {
        None => ArgCheck::Missing,
        Some(b) => match spec_parse_u32(b) {
            None => ArgCheck::Missing,
            Some(v) => if min <= v && v <= max { ArgCheck::Valid(v) } else { ArgCheck::OutOfRange },
        },
    }
}

/// How an optional word reads as a `usize` in `[min, max]`.
pub open spec fn check_usize(word: Option<Seq<u8>>, min: usize, max: usize) -> ArgCheck<usize> {
    match word {
        None => ArgCheck::Missing,
        Some(b) => match spec_parse_unsigned(b, usize::MAX as int) {
            None => ArgCheck::Missing,
            Some(v) => if min <= v && v <= max { ArgCheck::Valid(v as usize) } else { ArgCheck::OutOfRange },
        },
    }
}

/// How an optional word reads as an `i32` in `[min, max]`.
pub open spec fn check_i32(word: Option<Seq<u8>>, min: i32, max: i32) -> ArgCheck<i32> {
    match word {
        None => ArgCheck::Missing,
        Some(b) => match spec_parse_i32(b) {
            None => ArgCheck::Missing,
            Some(v) => if min <= v && v <= max { ArgCheck::Valid(v) } else { ArgCheck::OutOfRange },
        },
    }
}

/// The bytes of word `i` of `words`, when there is one.
pub open spec fn word_bytes(words: Seq<&str>, i: int) -> Option<Seq<u8>> {
    if 0 <= i < words.len() {
        Some(words[i].spec_bytes())
    } else {
        None
    }
}

fn word_at<'a>(words: &Vec<&'a str>, i: usize) -> (r: Option<&'a str>)
    ensures
        r matches Some(w) ==> i < words@.len() && w == words@[i as int],
        r is None ==> i >= words@.len(),
{
    if i < words.len() {
        Some(words[i])
    } else {
        None
    }
}

/// Reads an optional word as a `u32` in `[min, max]`.
pub fn parse_in_range_u32(word: Option<&str>, min: u32, max: u32) -> (r: ArgCheck<u32>)
    ensures
        r == check_u32(match word { Some(w) => Some(w.spec_bytes()), None => None }, min, max),
{
    match word {
        None => ArgCheck::Missing,
        Some(w) => match parse_u32(w) {
            None => ArgCheck::Missing,
            Some(v) => if v >= min && v <= max { ArgCheck::Valid(v) } else { ArgCheck::OutOfRange },
        },
    }
}

/// Reads an optional word as a `usize` in `[min, max]`.
pub fn parse_in_range_usize(word: Option<&str>, min: usize, max: usize) -> (r: ArgCheck<usize>)
    ensures
        r == check_usize(match word { Some(w) => Some(w.spec_bytes()), None => None }, min, max),
{
    match word {
        None => ArgCheck::Missing,
        Some(w) => match parse_usize(w) {
            None => ArgCheck::Missing,
            Some(v) => if v >= min && v <= max { ArgCheck::Valid(v) } else { ArgCheck::OutOfRange },
        },
    }
}

/// Reads an optional word as an `i32` in `[min, max]`.
pub fn parse_in_range_i32(word: Option<&str>, min: i32, max: i32) -> (r: ArgCheck<i32>)
    ensures
        r == check_i32(match word { Some(w) => Some(w.spec_bytes()), None => None }, min, max),
{
    match word {
        None => ArgCheck::Missing,
        Some(w) => match parse_i32(w) {
            None => ArgCheck::Missing,
            Some(v) => if v >= min && v <= max { ArgCheck::Valid(v) } else { ArgCheck::OutOfRange },
        },
    }
}

/// What "setconfig <setting> ..." asks for.
#[derive(Clone, Copy, Debug, PartialEq, Eq, Structural)]
pub enum SetCommand {
    /// "elevation <min> <max>", degrees 0 to 90.
    Elevation { min: ArgCheck<u32>, max: ArgCheck<u32> },
    /// "azimuth <min> <max>", degrees 0 to 360.
    Azimuth { min: ArgCheck<u32>, max: ArgCheck<u32> },
    /// "height <min> <max>", metres; the values are read by the caller.
    Height,
    /// "measurements <timepoint> <n> <duration>": a time of day, measurements
    /// per day (1 to `MAX_MIDPOINTS`), minutes each (20 to 240).
    Measurements { timepoint: Option<u32>, n_per_day: ArgCheck<usize>, duration: ArgCheck<i32> },
    Help,
    Unknown,
}

/// A command typed at the terminal.
#[derive(Clone, Copy, Debug, PartialEq, Eq, Structural)]
pub enum Command {
    Help,
    Status,
    BatVolt,
    GetTemp,
    GetConst,
    GetConfig,
    SetConfig(SetCommand),
    Download,
    Unknown,
}

/// The word is the literal.
pub open spec fn is_word(words: Seq<&str>, i: int, lit: Seq<char>) -> bool {
    0 <= i < words.len() && words[i]@ == lit
}

/// The timepoint word of a measurements command: a "H:M:S" time before
/// midnight, when it reads as one.
pub open spec fn timepoint_of(word: Option<Seq<u8>>) -> Option<u32> {
    match word {
        None => None,
        Some(b) => match spec_time_str_to_seconds(b) {
            Some(t) => if t < SECONDS_PER_DAY { Some(t) } else { None },
            None => None,
        },
    }
}

/// Reading the timepoint word does not panic: it has at most two ':' and its
/// fields add up without overflow.
pub open spec fn timepoint_readable(word: Option<Seq<u8>>) -> bool {
    match word {
        None => true,
        Some(b) => at_most_two_colons(b) && time_str_fits(b),
    }
}

/// The setting that "setconfig" words ask for.
pub open spec fn spec_set_command(words: Seq<&str>) -> SetCommand {
    if is_word(words, 1, "elevation"@) {
        SetCommand::Elevation { min: check_u32(word_bytes(words, 2), 0, 90), max: check_u32(word_bytes(words, 3), 0, 90) }
    } else if is_word(words, 1, "azimuth"@) {
        SetCommand::Azimuth { min: check_u32(word_bytes(words, 2), 0, 360), max: check_u32(word_bytes(words, 3), 0, 360) }
    } else if is_word(words, 1, "height"@) {
        SetCommand::Height
    } else if is_word(words, 1, "measurements"@) {
        SetCommand::Measurements {
            timepoint: timepoint_of(word_bytes(words, 2)),
            n_per_day: check_usize(word_bytes(words, 3), 1, MAX_MIDPOINTS),
            duration: check_i32(word_bytes(words, 4), 20, 240),
        }
    } else if is_word(words, 1, "help"@) || is_word(words, 1, "?"@) {
        SetCommand::Help
    } else {
        SetCommand::Unknown
    }
}

/// The command that the words of a line ask for (its first word, and for
/// "setconfig" the rest).
pub open spec fn spec_command(words: Seq<&str>) -> Command {
    if is_word(words, 0, "help"@) || is_word(words, 0, "?"@) {
        Command::Help
    } else if is_word(words, 0, "status"@) {
        Command::Status
    } else if is_word(words, 0, "batvolt"@) {
        Command::BatVolt
    } else if is_word(words, 0, "gettemp"@) {
        Command::GetTemp
    } else if is_word(words, 0, "getconst"@) {
        Command::GetConst
    } else if is_word(words, 0, "getconfig"@) {
        Command::GetConfig
    } else if is_word(words, 0, "setconfig"@) {
        Command::SetConfig(spec_set_command(words))
    } else if is_word(words, 0, "download"@) {
        Command::Download
    } else {
        Command::Unknown
    }
}

/// Reading the words of a line as a command does not panic.
pub open spec fn command_readable(words: Seq<&str>) -> bool {
    (is_word(words, 0, "setconfig"@) && is_word(words, 1, "measurements"@)) ==> timepoint_readable(word_bytes(words, 2))
}

fn is_at(words: &Vec<&str>, i: usize, lit: &str) -> (r: bool)
    ensures
        r == is_word(words@, i as int, lit@),
{
    match word_at(words, i) {
        Some(w) => word_is(w, lit),
        None => false,
    }
}

/// Whether `parse_command` can read the words (see `command_readable`).
pub fn command_is_readable(words: &Vec<&str>) -> (r: bool)
    ensures
        r == command_readable(words@),
{
    if is_at(words, 0, "setconfig") && is_at(words, 1, "measurements") {
        match word_at(words, 2) {
            Some(w) => time_str_readable(w),
            None => true,
        }
    } else {
        true
    }
}

/// Reads the words of a line as a command.
pub fn parse_command(words: &Vec<&str>) -> (r: Command)
    requires
        command_readable(words@),
    ensures
        r == spec_command(words@),
{
    if is_at(words, 0, "help") || is_at(words, 0, "?") {
        Command::Help
    } else if is_at(words, 0, "status") {
        Command::Status
    } else if is_at(words, 0, "batvolt") {
        Command::BatVolt
    } else if is_at(words, 0, "gettemp") {
        Command::GetTemp
    } else if is_at(words, 0, "getconst") {
        Command::GetConst
    } else if is_at(words, 0, "getconfig") {
        Command::GetConfig
    } else if is_at(words, 0, "setconfig") {
        let s = if is_at(words, 1, "elevation") {
            SetCommand::Elevation {
                min: parse_in_range_u32(word_at(words, 2), 0, 90),
                max: parse_in_range_u32(word_at(words, 3), 0, 90),
            }
        } else if is_at(words, 1, "azimuth") {
            SetCommand::Azimuth {
                min: parse_in_range_u32(word_at(words, 2), 0, 360),
                max: parse_in_range_u32(word_at(words, 3), 0, 360),
            }
        } else if is_at(words, 1, "height") {
            SetCommand::Height
        } else if is_at(words, 1, "measurements") {
            let timepoint = match word_at(words, 2) {
                Some(w) => match time_str_to_seconds(w) {
                    Some(t) => if t < SECONDS_PER_DAY { Some(t) } else { None },
                    None => None,
                },
                None => None,
            };
            SetCommand::Measurements {
                timepoint,
                n_per_day: parse_in_range_usize(word_at(words, 3), 1, MAX_MIDPOINTS),
                duration: parse_in_range_i32(word_at(words, 4), 20, 240),
            }
        } else if is_at(words, 1, "help") || is_at(words, 1, "?") {
            SetCommand::Help
        } else {
            SetCommand::Unknown
        };
        Command::SetConfig(s)
    } else if is_at(words, 0, "download") {
        Command::Download
    } else {
        Command::Unknown
    }
}


/// Why a measurement plan is refused.
#[derive(Clone, Copy, Debug, PartialEq, Eq, Structural)]
pub enum PlanError {
    /// Less than 30 s between the end of one measurement and the start of the next.
    InvalidConfiguration,
    /// The duration is not a whole number of 20-minute bins.
    NotMultipleOf20,
}

/// Seconds between the mid times of `n` measurements a day.
pub open spec fn plan_interval(n: usize) -> int {
    SECONDS_PER_DAY as int / n as int
}

/// Whether, and why, `n` measurements a day of `duration` minutes are refused.
pub open spec fn plan_error(n: usize, duration: i32) -> Option<PlanError> {
    if plan_interval(n) - duration * 60 < 30 {
        Some(PlanError::InvalidConfiguration)
    } else if duration % 20 != 0 {
        Some(PlanError::NotMultipleOf20)
    } else {
        None
    }
}

/// The mid times of `n` measurements a day, evenly spaced, one of them at
/// `timepoint` (seconds since midnight), the earliest first.
pub open spec fn planned_mid_times(timepoint: u32, n: usize) -> Seq<u32> {
    let interval = plan_interval(n);
    Seq::new(n as nat, |i: int| ((timepoint as int % interval + i * interval) % SECONDS_PER_DAY as int) as u32)
}

/// The mid times and bins per sector of `n_per_day` measurements a day of
/// `duration` minutes, one of them centred on `timepoint`.
pub fn plan_measurements(timepoint: u32, n_per_day: usize, duration: i32) -> (r: Result<(heapless::Vec<u32, MAX_MIDPOINTS>, u32), PlanError>)
    requires
        1 <= n_per_day <= MAX_MIDPOINTS,
        20 <= duration <= 240,
    ensures
        match r {
            Ok((mids, bins)) => plan_error(n_per_day, duration) is None
                && words128_items(mids) == planned_mid_times(timepoint, n_per_day)
                && bins == duration / 20,
            Err(e) => plan_error(n_per_day, duration) == Some(e),
        },
{
    let interval: u32 = SECONDS_PER_DAY / (n_per_day as u32);
    assert(interval == plan_interval(n_per_day));
    assert(interval >= 675) by (nonlinear_arith)
        requires interval == 86400int / (n_per_day as int), 1 <= n_per_day <= 128;
    let gap: i32 = interval as i32 - duration * 60;
    if gap < 30 {
        return Err(PlanError::InvalidConfiguration);
    }
    if duration % 20 != 0 {
        return Err(PlanError::NotMultipleOf20);
    }
    let bins_per_sector: u32 = (duration / 20) as u32;
    let earliest: u32 = timepoint % interval;
    let mut mids = words128_new();
    let mut i: usize = 0;
    while i < n_per_day
        invariant
            1 <= n_per_day <= MAX_MIDPOINTS,
            i <= n_per_day,
            interval == plan_interval(n_per_day),
            interval <= SECONDS_PER_DAY,
            interval >= 675,
            earliest == timepoint % interval,
            words128_items(mids) == planned_mid_times(timepoint, n_per_day).take(i as int),
        decreases n_per_day - i,
    {
        assert((i as int) * (interval as int) <= 128 * 86400) by (nonlinear_arith)
            requires i < 128, interval <= 86400u32;
        let mid: u32 = (earliest + (i as u32) * interval) % SECONDS_PER_DAY;
        let pushed = words128_push(&mut mids, mid);
        assert(pushed is Ok);
        assert(words128_items(mids) =~= planned_mid_times(timepoint, n_per_day).take(i + 1));
        i = i + 1;
    }
    assert(planned_mid_times(timepoint, n_per_day).take(n_per_day as int) =~= planned_mid_times(timepoint, n_per_day));
    Ok((mids, bins_per_sector))
}

/// The mid times of a plan never wrap past midnight: they rise by one interval
/// from the earliest, so they are sorted, all within the day, and the
/// timepoint itself is one of them whenever it falls before `n` intervals.
pub proof fn lemma_planned_mid_times(timepoint: u32, n: usize)
    requires
        1 <= n <= MAX_MIDPOINTS,
    ensures
        forall|i: int| 0 <= i < n ==> #[trigger] planned_mid_times(timepoint, n)[i]
            == timepoint as int % plan_interval(n) + i * plan_interval(n),
        forall|i: int, j: int| 0 <= i < j < n ==> planned_mid_times(timepoint, n)[i] < planned_mid_times(timepoint, n)[j],
        forall|i: int| 0 <= i < n ==> #[trigger] planned_mid_times(timepoint, n)[i] < SECONDS_PER_DAY,
        timepoint < n * plan_interval(n) ==> planned_mid_times(timepoint, n).contains(timepoint),
{
    let iv = plan_interval(n);
    let e = timepoint as int % iv;
    assert(n * iv <= 86400 && iv >= 675) by (nonlinear_arith)
        requires
            iv == 86400int / (n as int),
            1 <= n <= 128,
    ;
    assert(0 <= e < iv);
    assert forall|i: int| 0 <= i < n implies #[trigger] planned_mid_times(timepoint, n)[i] == e + i * iv
        && e + i * iv < SECONDS_PER_DAY by {
        assert(e + i * iv < n * iv) by (nonlinear_arith)
            requires
                0 <= e < iv,
                0 <= i < n,
        ;
        assert(0 <= i * iv) by (nonlinear_arith)
            requires
                0 <= i,
                iv >= 0,
        ;
    }
    assert forall|i: int, j: int| 0 <= i < j < n implies planned_mid_times(timepoint, n)[i] < planned_mid_times(timepoint, n)[j] by {
        assert(i * iv < j * iv) by (nonlinear_arith)
            requires
                i < j,
                iv > 0,
        ;
        assert(planned_mid_times(timepoint, n)[i] == e + i * iv);
        assert(planned_mid_times(timepoint, n)[j] == e + j * iv);
    }
    if timepoint < n * iv {
        let k = timepoint as int / iv;
        assert(timepoint == e + k * iv && 0 <= k < n) by (nonlinear_arith)
            requires
                iv > 0,
                e == timepoint as int % iv,
                k == timepoint as int / iv,
                timepoint < n * iv,
                timepoint >= 0,
        ;
        assert(planned_mid_times(timepoint, n)[k] == timepoint);
    }
}

/// State of the terminal: disconnected, idle, or waiting for the control
/// task's answer to a request, with the change to make once the configuration
/// arrives.
pub enum InterfaceState {
    Disconnected,
    Idle,
    Batvolt,
    GetTemp,
    GetConst,
    GetConfig,
    GetState,
    SetElevation { min: u32, max: u32 },
    SetAzimuth { min: u32, max: u32 },
    /// Relative heights, as bit patterns of their `f32` values in metres.
    SetHeight { min_bits: u32, max_bits: u32 },
    SetMeasurements { mid_times: heapless::Vec<u32, MAX_MIDPOINTS>, bins_per_sector: u32 },
}

/// An argument that a command checks.
#[derive(Clone, Copy, Debug, PartialEq, Eq, Structural)]
pub enum Arg {
    MinElevation,
    MaxElevation,
    MinAzimuth,
    MaxAzimuth,
    MeasurementsPerDay,
    MeasurementDuration,
}

/// A message that the terminal writes back to the user.
#[derive(Clone, Copy, Debug, PartialEq, Eq, Structural)]
pub enum Notice {
    /// The list of commands.
    Help,
    /// The list of settings.
    SetHelp,
    UnknownCommand,
    UnknownSetting,
    /// The constellation state is on its way.
    PleaseWait,
    OutOfRange(Arg),
    Missing(Arg),
    MinNotBelowMax,
    BadTimepoint,
    InvalidMeasurements,
    DurationNotMultiple,
    /// Input while waiting for an answer drops the request.
    Aborted,
}

/// What the terminal does with a line besides writing its notices.
pub enum LineAction {
    Nothing,
    /// Send this request to the control task.
    Send(IntResMsg),
    /// Dump the flash contents.
    Download,
    /// Read the two height arguments (real numbers) of "setconfig height".
    ReadHeight,
}

/// The reply to one line of input.
pub struct LineOutcome {
    pub notices: Vec<Notice>,
    pub action: LineAction,
}

/// The notice for a checked argument, if it failed.
pub open spec fn arg_notices<T>(c: ArgCheck<T>, a: Arg) -> Seq<Notice> {
    match c {
        ArgCheck::Valid(_) => Seq::empty(),
        ArgCheck::OutOfRange => seq![Notice::OutOfRange(a)],
        ArgCheck::Missing => seq![Notice::Missing(a)],
    }
}

/// The notice for a range whose minimum is not below its maximum.
pub open spec fn order_notices(min: ArgCheck<u32>, max: ArgCheck<u32>) -> Seq<Notice> {
    match (min, max) {
        (ArgCheck::Valid(a), ArgCheck::Valid(b)) => if a >= b { seq![Notice::MinNotBelowMax] } else { Seq::empty() },
        _ => Seq::empty(),
    }
}

/// The notice for a refused measurement plan.
pub open spec fn plan_notices(e: Option<PlanError>) -> Seq<Notice> {
    match e {
        Some(PlanError::InvalidConfiguration) => seq![Notice::InvalidMeasurements],
        Some(PlanError::NotMultipleOf20) => seq![Notice::DurationNotMultiple],
        None => Seq::empty(),
    }
}

/// The terminal went back to idle and does nothing more.
pub open spec fn stays_idle(st: InterfaceState, action: LineAction) -> bool {
    st is Idle && action is Nothing
}

/// What "setconfig" does: the next state, the notices and the action.
pub open spec fn set_effect(s: SetCommand, st: InterfaceState, notices: Seq<Notice>, action: LineAction) -> bool {
    match s {
        SetCommand::Elevation { min, max } => {
            &&& notices == arg_notices(min, Arg::MinElevation) + arg_notices(max, Arg::MaxElevation) + order_notices(min, max)
            &&& match (min, max) {
                (ArgCheck::Valid(a), ArgCheck::Valid(b)) => if a < b {
                    st == (InterfaceState::SetElevation { min: a, max: b }) && action == LineAction::Send(IntResMsg::GetConfig)
                } else {
                    stays_idle(st, action)
                },
                _ => stays_idle(st, action),
            }
        },
        SetCommand::Azimuth { min, max } => {
            &&& notices == arg_notices(min, Arg::MinAzimuth) + arg_notices(max, Arg::MaxAzimuth)
            &&& match (min, max) {
                (ArgCheck::Valid(a), ArgCheck::Valid(b)) =>
                    st == (InterfaceState::SetAzimuth { min: a, max: b }) && action == LineAction::Send(IntResMsg::GetConfig),
                _ => stays_idle(st, action),
            }
        },
        SetCommand::Height => st is Idle && notices.len() == 0 && action is ReadHeight,
        SetCommand::Measurements { timepoint, n_per_day, duration } => {
            let first = (if timepoint is None { seq![Notice::BadTimepoint] } else { Seq::<Notice>::empty() })
                + arg_notices(n_per_day, Arg::MeasurementsPerDay) + arg_notices(duration, Arg::MeasurementDuration);
            match (timepoint, n_per_day, duration) {
                (Some(t), ArgCheck::Valid(n), ArgCheck::Valid(d)) => {
                    &&& notices == first + plan_notices(plan_error(n, d))
                    &&& if plan_error(n, d) is None {
                        &&& st matches InterfaceState::SetMeasurements { mid_times, bins_per_sector }
                        &&& words128_items(mid_times) == planned_mid_times(t, n)
                        &&& bins_per_sector == d / 20
                        &&& action == LineAction::Send(IntResMsg::GetConfig)
                    } else {
                        stays_idle(st, action)
                    }
                },
                _ => notices == first && stays_idle(st, action),
            }
        },
        SetCommand::Help => notices == seq![Notice::SetHelp] && stays_idle(st, action),
        SetCommand::Unknown => notices == seq![Notice::UnknownSetting] && stays_idle(st, action),
    }
}

/// What a command typed while idle does: the next state, the notices and the
/// action.
pub open spec fn command_effect(cmd: Command, st: InterfaceState, notices: Seq<Notice>, action: LineAction) -> bool {
    match cmd {
        Command::Help => notices == seq![Notice::Help] && stays_idle(st, action),
        Command::Status => st is GetState && notices.len() == 0 && action == LineAction::Send(IntResMsg::GetState),
        Command::BatVolt => st is Batvolt && notices.len() == 0 && action == LineAction::Send(IntResMsg::GetBatVolt),
        Command::GetTemp => st is GetTemp && notices.len() == 0 && action == LineAction::Send(IntResMsg::GetTemp),
        Command::GetConst => st is GetConst && notices == seq![Notice::PleaseWait]
            && action == LineAction::Send(IntResMsg::GetConstellationState),
        Command::GetConfig => st is GetConfig && notices.len() == 0 && action == LineAction::Send(IntResMsg::GetConfig),
        Command::SetConfig(s) => set_effect(s, st, notices, action),
        Command::Download => st is Idle && notices.len() == 0 && action is Download,
        Command::Unknown => notices == seq![Notice::UnknownCommand] && stays_idle(st, action),
    }
}

fn push_arg_notice<T: Copy>(notices: &mut Vec<Notice>, c: ArgCheck<T>, a: Arg)
    ensures
        final(notices)@ == old(notices)@ + arg_notices(c, a),
{
    match c {
        ArgCheck::Valid(_) => {
            assert(notices@ =~= notices@ + arg_notices(c, a));
        },
        ArgCheck::OutOfRange => {
            notices.push(Notice::OutOfRange(a));
            assert(notices@ =~= old(notices)@ + arg_notices(c, a));
        },
        ArgCheck::Missing => {
            notices.push(Notice::Missing(a));
            assert(notices@ =~= old(notices)@ + arg_notices(c, a));
        },
    }
}

fn outcome(notices: Vec<Notice>, action: LineAction) -> (r: LineOutcome)
    ensures
        r.notices@ == notices@,
        r.action == action,
{
    LineOutcome { notices, action }
}

/// The values of a command's valid arguments lie in their ranges, as reading
/// the command makes them.
pub open spec fn command_in_range(cmd: Command) -> bool {
    cmd matches Command::SetConfig(SetCommand::Measurements { n_per_day, duration, .. }) ==> {
        &&& (n_per_day matches ArgCheck::Valid(n) ==> 1 <= n <= MAX_MIDPOINTS)
        &&& (duration matches ArgCheck::Valid(d) ==> 20 <= d <= 240)
    }
}

/// Carries out "setconfig" while idle.
fn run_set_command(s: SetCommand) -> (r: (InterfaceState, LineOutcome))
    requires
        command_in_range(Command::SetConfig(s)),
    ensures
        set_effect(s, r.0, r.1.notices@, r.1.action),
{
    let mut notices: Vec<Notice> = Vec::new();
    match s {
        SetCommand::Elevation { min, max } => {
            push_arg_notice(&mut notices, min, Arg::MinElevation);
            push_arg_notice(&mut notices, max, Arg::MaxElevation);
            match (min, max) {
                (ArgCheck::Valid(a), ArgCheck::Valid(b)) => {
                    if a >= b {
                        let ghost before = notices@;
                        notices.push(Notice::MinNotBelowMax);
                        assert(notices@ =~= before + order_notices(min, max));
                        (InterfaceState::Idle, outcome(notices, LineAction::Nothing))
                    } else {
                        assert(notices@ =~= notices@ + order_notices(min, max));
                        (InterfaceState::SetElevation { min: a, max: b }, outcome(notices, LineAction::Send(IntResMsg::GetConfig)))
                    }
                },
                _ => {
                    assert(notices@ =~= notices@ + order_notices(min, max));
                    (InterfaceState::Idle, outcome(notices, LineAction::Nothing))
                },
            }
        },
        SetCommand::Azimuth { min, max } => {
            push_arg_notice(&mut notices, min, Arg::MinAzimuth);
            push_arg_notice(&mut notices, max, Arg::MaxAzimuth);
            match (min, max) {
                (ArgCheck::Valid(a), ArgCheck::Valid(b)) => {
                    (InterfaceState::SetAzimuth { min: a, max: b }, outcome(notices, LineAction::Send(IntResMsg::GetConfig)))
                },
                _ => (InterfaceState::Idle, outcome(notices, LineAction::Nothing)),
            }
        },
        SetCommand::Height => (InterfaceState::Idle, outcome(notices, LineAction::ReadHeight)),
        SetCommand::Measurements { timepoint, n_per_day, duration } => {
            if timepoint.is_none() {
                notices.push(Notice::BadTimepoint);
            }
            let ghost tp_notices = notices@;
            assert(tp_notices =~= (if timepoint is None { seq![Notice::BadTimepoint] } else { Seq::<Notice>::empty() }));
            push_arg_notice(&mut notices, n_per_day, Arg::MeasurementsPerDay);
            push_arg_notice(&mut notices, duration, Arg::MeasurementDuration);
            match (timepoint, n_per_day, duration) {
                (Some(t), ArgCheck::Valid(n), ArgCheck::Valid(d)) => {
                    match plan_measurements(t, n, d) {
                        Ok((mid_times, bins_per_sector)) => {
                            assert(notices@ =~= notices@ + plan_notices(plan_error(n, d)));
                            (
                                InterfaceState::SetMeasurements { mid_times, bins_per_sector },
                                outcome(notices, LineAction::Send(IntResMsg::GetConfig)),
                            )
                        },
                        Err(e) => {
                            let ghost before = notices@;
                            match e {
                                PlanError::InvalidConfiguration => notices.push(Notice::InvalidMeasurements),
                                PlanError::NotMultipleOf20 => notices.push(Notice::DurationNotMultiple),
                            }
                            assert(notices@ =~= before + plan_notices(plan_error(n, d)));
                            (InterfaceState::Idle, outcome(notices, LineAction::Nothing))
                        },
                    }
                },
                _ => (InterfaceState::Idle, outcome(notices, LineAction::Nothing)),
            }
        },
        SetCommand::Help => {
            notices.push(Notice::SetHelp);
            assert(notices@ =~= seq![Notice::SetHelp]);
            (InterfaceState::Idle, outcome(notices, LineAction::Nothing))
        },
        SetCommand::Unknown => {
            notices.push(Notice::UnknownSetting);
            assert(notices@ =~= seq![Notice::UnknownSetting]);
            (InterfaceState::Idle, outcome(notices, LineAction::Nothing))
        },
    }
}

/// Carries out a command typed while idle.
pub fn run_command(cmd: Command) -> (r: (InterfaceState, LineOutcome))
    requires
        command_in_range(cmd),
    ensures
        command_effect(cmd, r.0, r.1.notices@, r.1.action),
{
    let mut notices: Vec<Notice> = Vec::new();
    match cmd {
        Command::Help => {
            notices.push(Notice::Help);
            assert(notices@ =~= seq![Notice::Help]);
            (InterfaceState::Idle, outcome(notices, LineAction::Nothing))
        },
        Command::Status => (InterfaceState::GetState, outcome(notices, LineAction::Send(IntResMsg::GetState))),
        Command::BatVolt => (InterfaceState::Batvolt, outcome(notices, LineAction::Send(IntResMsg::GetBatVolt))),
        Command::GetTemp => (InterfaceState::GetTemp, outcome(notices, LineAction::Send(IntResMsg::GetTemp))),
        Command::GetConst => {
            notices.push(Notice::PleaseWait);
            assert(notices@ =~= seq![Notice::PleaseWait]);
            (InterfaceState::GetConst, outcome(notices, LineAction::Send(IntResMsg::GetConstellationState)))
        },
        Command::GetConfig => (InterfaceState::GetConfig, outcome(notices, LineAction::Send(IntResMsg::GetConfig))),
        Command::SetConfig(s) => run_set_command(s),
        Command::Download => (InterfaceState::Idle, outcome(notices, LineAction::Download)),
        Command::Unknown => {
            notices.push(Notice::UnknownCommand);
            assert(notices@ =~= seq![Notice::UnknownCommand]);
            (InterfaceState::Idle, outcome(notices, LineAction::Nothing))
        },
    }
}

impl InterfaceState {
    /// The terminal starts disconnected.
    pub fn new() -> (r: Self)
        ensures
            r is Disconnected,
    {
        InterfaceState::Disconnected
    }

    /// The host raised or dropped DTR: a raised line connects a disconnected
    /// terminal (and asks for the greeting); a dropped line disconnects an idle
    /// terminal or one waiting for the battery voltage or the temperature.
    pub fn on_control_changed(self, dtr: bool) -> (r: (InterfaceState, bool))
        ensures
            r.1 == (dtr && self is Disconnected),
            r.1 ==> r.0 is Idle,
            !dtr && (self is Idle || self is Batvolt || self is GetTemp) ==> r.0 is Disconnected,
            !r.1 && !(!dtr && (self is Idle || self is Batvolt || self is GetTemp)) ==> r.0 == self,
    {
        match self {
            InterfaceState::Disconnected => if dtr {
                (InterfaceState::Idle, true)
            } else {
                (InterfaceState::Disconnected, false)
            },
            InterfaceState::Idle => if dtr { (InterfaceState::Idle, false) } else { (InterfaceState::Disconnected, false) },
            InterfaceState::Batvolt => if dtr { (InterfaceState::Batvolt, false) } else { (InterfaceState::Disconnected, false) },
            InterfaceState::GetTemp => if dtr { (InterfaceState::GetTemp, false) } else { (InterfaceState::Disconnected, false) },
            other => (other, false),
        }
    }

    /// A line of input arrived, split into its words. An empty line changes
    /// nothing. While idle the line is a command; while waiting for the
    /// constellation state it silently drops the wait; while waiting for any
    /// other answer it aborts the wait.
    pub fn on_line(self, words: &Vec<&str>) -> (r: (InterfaceState, LineOutcome))
        requires
            words@.len() > 0 ==> !(self is Disconnected),
            self is Idle ==> command_readable(words@),
        ensures
            words@.len() == 0 ==> r.0 == self && r.1.notices@.len() == 0 && r.1.action is Nothing,
            words@.len() > 0 && self is Idle ==> command_effect(spec_command(words@), r.0, r.1.notices@, r.1.action),
            words@.len() > 0 && self is GetConst ==> r.0 is Idle && r.1.notices@.len() == 0 && r.1.action is Nothing,
            words@.len() > 0 && !(self is Idle) && !(self is GetConst) ==> r.0 is Idle
                && r.1.notices@ == seq![Notice::Aborted] && r.1.action is Nothing,
    {
        if words.len() == 0 {
            return (self, outcome(Vec::new(), LineAction::Nothing));
        }
        match self {
            InterfaceState::Idle => {
                let cmd = parse_command(words);
                assert(command_in_range(cmd));
                run_command(cmd)
            },
            InterfaceState::GetConst => (InterfaceState::Idle, outcome(Vec::new(), LineAction::Nothing)),
            _ => {
                let mut notices: Vec<Notice> = Vec::new();
                notices.push(Notice::Aborted);
                assert(notices@ =~= seq![Notice::Aborted]);
                (InterfaceState::Idle, outcome(notices, LineAction::Nothing))
            },
        }
    }

    /// "setconfig height" read two heights in range with the minimum below the
    /// maximum (bit patterns of their `f32` values): ask for the configuration
    /// to change it.
    pub fn begin_set_height(self, min_bits: u32, max_bits: u32) -> (r: (InterfaceState, IntResMsg))
        requires
            self is Idle,
        ensures
            r.0 == (InterfaceState::SetHeight { min_bits, max_bits }),
            r.1 == IntResMsg::GetConfig,
    {
        (InterfaceState::SetHeight { min_bits, max_bits }, IntResMsg::GetConfig)
    }
}


/// The part of the configuration that a change from the terminal touched.
#[derive(Clone, Copy, Debug, PartialEq, Eq, Structural)]
pub enum ConfigChange {
    Elevation,
    Azimuth,
    Height,
    Measurements,
}

/// What the terminal writes when an answer from the control task arrives.
pub enum Report {
    Nothing,
    BatteryMillivolts(u32),
    BatteryFailed,
    /// Chip temperature, as the bit pattern of its `f32` value in °C.
    ChipTemperature(u32),
    TemperatureFailed,
    Constellation { signal_bars_max: u8, signal_level_max: i8, constellation_visible: bool },
    ConstellationFailed,
    /// The configuration as it stands.
    Config(Config),
    /// The configuration was changed (it travels in the request that is sent).
    ConfigChanged(ConfigChange),
    /// The control task's state report, line by line.
    State(heapless::String<2048>),
}

/// The reply to an answer from the control task.
pub struct RequestOutcome {
    pub report: Report,
    /// Request to send the control task in turn.
    pub send: Option<IntResMsg>,
}

/// Whether `req` is the answer that the terminal in state `st` waits for.
pub open spec fn awaited(st: InterfaceState, req: IntReqMsg) -> bool {
    match st {
        InterfaceState::Batvolt => req is BatVoltSuccess || req is BatVoltFail,
        InterfaceState::GetTemp => req is TempSuccess || req is TempFail,
        InterfaceState::GetConst => req is ConstellationState || req is ConstellationStateFail,
        InterfaceState::GetState => req is GiveState,
        InterfaceState::GetConfig => req is GiveConfig,
        InterfaceState::SetElevation { .. } => req is GiveConfig,
        InterfaceState::SetAzimuth { .. } => req is GiveConfig,
        InterfaceState::SetHeight { .. } => req is GiveConfig,
        InterfaceState::SetMeasurements { .. } => req is GiveConfig,
        _ => false,
    }
}

/// The part of the configuration that state `st` waits to change.
pub open spec fn change_of(st: InterfaceState) -> ConfigChange {
    match st {
        InterfaceState::SetElevation { .. } => ConfigChange::Elevation,
        InterfaceState::SetAzimuth { .. } => ConfigChange::Azimuth,
        InterfaceState::SetHeight { .. } => ConfigChange::Height,
        _ => ConfigChange::Measurements,
    }
}

/// The configuration (settings, mid times) after the change that state `st`
/// waits to make: the elevation or azimuth range before and after the fix, the
/// relative height range, or the mid times and bins per sector.
pub open spec fn changed_config(st: InterfaceState, cfg: (Seq<u32>, Seq<u32>)) -> (Seq<u32>, Seq<u32>) {
    let (w, mids) = cfg;
    match st {
        InterfaceState::SetElevation { min, max } => (w.update(0, min).update(1, max).update(4, min).update(5, max), mids),
        InterfaceState::SetAzimuth { min, max } => (w.update(2, min).update(3, max).update(6, min).update(7, max), mids),
        InterfaceState::SetHeight { min_bits, max_bits } => (w.update(8, min_bits).update(9, max_bits), mids),
        InterfaceState::SetMeasurements { mid_times, bins_per_sector } => (w.update(14, bins_per_sector), words128_items(mid_times)),
        _ => cfg,
    }
}

/// What the terminal writes and sends for the awaited answer `req` in state `st`.
pub open spec fn answer_effect(st: InterfaceState, req: IntReqMsg, out: RequestOutcome) -> bool {
    match req {
        IntReqMsg::BatVoltSuccess { voltage } => out.report == Report::BatteryMillivolts(voltage) && out.send is None,
        IntReqMsg::BatVoltFail => out.report is BatteryFailed && out.send is None,
        IntReqMsg::TempSuccess { temp_bits } => out.report == Report::ChipTemperature(temp_bits) && out.send is None,
        IntReqMsg::TempFail => out.report is TemperatureFailed && out.send is None,
        IntReqMsg::ConstellationState { signal_bars_max, signal_level_max, constellation_visible } =>
            out.report == (Report::Constellation { signal_bars_max, signal_level_max, constellation_visible }) && out.send is None,
        IntReqMsg::ConstellationStateFail { .. } => out.report is ConstellationFailed && out.send is None,
        IntReqMsg::GiveState { str } => out.report == Report::State(str) && out.send is None,
        IntReqMsg::GiveConfig { config } => if st is GetConfig {
            out.report == Report::Config(config) && out.send is None
        } else {
            &&& out.report == Report::ConfigChanged(change_of(st))
            &&& out.send matches Some(IntResMsg::SetConfig { config: c })
            &&& c@ == changed_config(st, config@)
        },
    }
}

fn no_reply() -> (r: RequestOutcome)
    ensures
        r.report is Nothing,
        r.send is None,
{
    RequestOutcome { report: Report::Nothing, send: None }
}

fn reply(report: Report) -> (r: RequestOutcome)
    ensures
        r.report == report,
        r.send is None,
{
    RequestOutcome { report, send: None }
}

impl InterfaceState {
    /// An answer from the control task arrived. The awaited answer is written
    /// out and the terminal goes back to idle (a state report leaves it waiting
    /// for more); a configuration awaited for a change comes back changed, to be
    /// sent on. Any other answer is ignored.
    pub fn on_request(self, req: IntReqMsg) -> (r: (InterfaceState, RequestOutcome))
        ensures
            !awaited(self, req) ==> r.0 == self && r.1.report is Nothing && r.1.send is None,
            awaited(self, req) && self is GetState ==> r.0 == self,
            awaited(self, req) && !(self is GetState) ==> r.0 is Idle,
            awaited(self, req) ==> answer_effect(self, req, r.1),
    {
        match self {
            InterfaceState::Batvolt => match req {
                IntReqMsg::BatVoltSuccess { voltage } => (InterfaceState::Idle, reply(Report::BatteryMillivolts(voltage))),
                IntReqMsg::BatVoltFail => (InterfaceState::Idle, reply(Report::BatteryFailed)),
                _ => (InterfaceState::Batvolt, no_reply()),
            },
            InterfaceState::GetTemp => match req {
                IntReqMsg::TempSuccess { temp_bits } => (InterfaceState::Idle, reply(Report::ChipTemperature(temp_bits))),
                IntReqMsg::TempFail => (InterfaceState::Idle, reply(Report::TemperatureFailed)),
                _ => (InterfaceState::GetTemp, no_reply()),
            },
            InterfaceState::GetConst => match req {
                IntReqMsg::ConstellationState { signal_bars_max, signal_level_max, constellation_visible } => (
                    InterfaceState::Idle,
                    reply(Report::Constellation { signal_bars_max, signal_level_max, constellation_visible }),
                ),
                IntReqMsg::ConstellationStateFail { .. } => (InterfaceState::Idle, reply(Report::ConstellationFailed)),
                _ => (InterfaceState::GetConst, no_reply()),
            },
            InterfaceState::GetConfig => match req {
                IntReqMsg::GiveConfig { config } => (InterfaceState::Idle, reply(Report::Config(config))),
                _ => (InterfaceState::GetConfig, no_reply()),
            },
            InterfaceState::SetElevation { min, max } => match req {
                IntReqMsg::GiveConfig { config } => {
                    let ghost given = config@;
                    let mut config = config;
                    config.pre_min_elevation = min;
                    config.post_min_elevation = min;
                    config.pre_max_elevation = max;
                    config.post_max_elevation = max;
                    assert(config.words() =~= given.0.update(0, min).update(1, max).update(4, min).update(5, max));
                    (
                        InterfaceState::Idle,
                        RequestOutcome { report: Report::ConfigChanged(ConfigChange::Elevation), send: Some(IntResMsg::SetConfig { config }) },
                    )
                },
                _ => (InterfaceState::SetElevation { min, max }, no_reply()),
            },
            InterfaceState::SetAzimuth { min, max } => match req {
                IntReqMsg::GiveConfig { config } => {
                    let ghost given = config@;
                    let mut config = config;
                    config.pre_min_azimuth = min;
                    config.post_min_azimuth = min;
                    config.pre_max_azimuth = max;
                    config.post_max_azimuth = max;
                    assert(config.words() =~= given.0.update(2, min).update(3, max).update(6, min).update(7, max));
                    (
                        InterfaceState::Idle,
                        RequestOutcome { report: Report::ConfigChanged(ConfigChange::Azimuth), send: Some(IntResMsg::SetConfig { config }) },
                    )
                },
                _ => (InterfaceState::SetAzimuth { min, max }, no_reply()),
            },
            InterfaceState::SetHeight { min_bits, max_bits } => match req {
                IntReqMsg::GiveConfig { config } => {
                    let ghost given = config@;
                    let mut config = config;
                    config.min_relative_height_bits = min_bits;
                    config.max_relative_height_bits = max_bits;
                    assert(config.words() =~= given.0.update(8, min_bits).update(9, max_bits));
                    (
                        InterfaceState::Idle,
                        RequestOutcome { report: Report::ConfigChanged(ConfigChange::Height), send: Some(IntResMsg::SetConfig { config }) },
                    )
                },
                _ => (InterfaceState::SetHeight { min_bits, max_bits }, no_reply()),
            },
            InterfaceState::SetMeasurements { mid_times, bins_per_sector } => match req {
                IntReqMsg::GiveConfig { config } => {
                    let ghost given = config@;
                    let mut config = config;
                    config.sector_mid_times = mid_times;
                    config.bins_per_sector = bins_per_sector;
                    assert(config.words() =~= given.0.update(14, bins_per_sector));
                    (
                        InterfaceState::Idle,
                        RequestOutcome {
                            report: Report::ConfigChanged(ConfigChange::Measurements),
                            send: Some(IntResMsg::SetConfig { config }),
                        },
                    )
                },
                _ => (InterfaceState::SetMeasurements { mid_times, bins_per_sector }, no_reply()),
            },
            InterfaceState::GetState => match req {
                IntReqMsg::GiveState { str } => (InterfaceState::GetState, reply(Report::State(str))),
                _ => (InterfaceState::GetState, no_reply()),
            },
            other => (other, no_reply()),
        }
    }
}


/// A measurements change typed at the terminal reaches the control task as
/// the configuration it was given, with the planned mid times and the bins
/// per sector of the duration, and nothing else changed.
pub proof fn lemma_measurements_change(
    timepoint: u32,
    n: usize,
    d: i32,
    st: InterfaceState,
    notices: Seq<Notice>,
    action: LineAction,
    cfg: Config,
    out: RequestOutcome,
)
    requires
        1 <= n <= MAX_MIDPOINTS,
        20 <= d <= 240,
        plan_error(n, d) is None,
        command_effect(
            Command::SetConfig(SetCommand::Measurements {
                timepoint: Some(timepoint),
                n_per_day: ArgCheck::Valid(n),
                duration: ArgCheck::Valid(d),
            }),
            st,
            notices,
            action,
        ),
        answer_effect(st, IntReqMsg::GiveConfig { config: cfg }, out),
    ensures
        notices.len() == 0,
        action == LineAction::Send(IntResMsg::GetConfig),
        awaited(st, IntReqMsg::GiveConfig { config: cfg }),
        out.send matches Some(IntResMsg::SetConfig { config: c })
            && c.mid_times() == planned_mid_times(timepoint, n)
            && c.words() == cfg.words().update(14, (d / 20) as u32),
{
    assert(notices =~= Seq::<Notice>::empty());
}

} // verus!
