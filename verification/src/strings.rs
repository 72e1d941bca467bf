//! Human-readable renderings: durations parsed from short suffix strings,
//! and elapsed times and byte sizes formatted for display.

use vstd::prelude::*;
use vstd::string::*;

verus! {

/// The decimal digit character for a value below ten.
pub open spec fn spec_digit(d: int) -> char {
    if d == 0 {
        '0'
    } else if d == 1 {
        '1'
    } else if d == 2 {
        '2'
    } else if d == 3 {
        '3'
    } else if d == 4 {
        '4'
    } else if d == 5 {
        '5'
    } else if d == 6 {
        '6'
    } else if d == 7 {
        '7'
    } else if d == 8 {
        '8'
    } else {
        '9'
    }
}

/// The decimal rendering of a non-negative number.
pub open spec fn spec_digits(n: int) -> Seq<char>
    recommends
        n >= 0,
    decreases n,
{
    if n < 10 {
        seq![spec_digit(n)]
    } else {
        spec_digits(n / 10).push(spec_digit(n % 10))
    }
}

/// The decimal digit string for a value below ten.
fn digit_str(d: u64) -> (r: &'static str)
    requires
        d < 10,
    ensures
        r@ =~= seq![spec_digit(d as int)],
{
    proof {
        reveal_strlit("0");
        reveal_strlit("1");
        reveal_strlit("2");
        reveal_strlit("3");
        reveal_strlit("4");
        reveal_strlit("5");
        reveal_strlit("6");
        reveal_strlit("7");
        reveal_strlit("8");
        reveal_strlit("9");
    }
    if d == 0 {
        "0"
    } else if d == 1 {
        "1"
    } else if d == 2 {
        "2"
    } else if d == 3 {
        "3"
    } else if d == 4 {
        "4"
    } else if d == 5 {
        "5"
    } else if d == 6 {
        "6"
    } else if d == 7 {
        "7"
    } else if d == 8 {
        "8"
    } else {
        "9"
    }
}

/// Render a number in decimal.
pub fn u64_to_string(n: u64) -> (r: String)
    ensures
        r@ == spec_digits(n as int),
    decreases n,
{
    if n < 10 {
        let r = String::from_str(digit_str(n));
        proof {
            assert(r@ =~= spec_digits(n as int));
        }
        r
    } else {
        let r = u64_to_string(n / 10).concat(digit_str(n % 10));
        proof {
            assert(r@ =~= spec_digits(n as int));
        }
        r
    }
}

/// `s` without its leading spaces.
pub open spec fn ltrim(s: Seq<char>) -> Seq<char>
    decreases s.len(),
{
    if s.len() > 0 && s[0] == ' ' {
        ltrim(s.drop_first())
    } else {
        s
    }
}

/// `s` without its trailing spaces.
pub open spec fn rtrim(s: Seq<char>) -> Seq<char>
    decreases s.len(),
{
    if s.len() > 0 && s[s.len() - 1] == ' ' {
        rtrim(s.drop_last())
    } else {
        s
    }
}

/// `s` without leading or trailing spaces.
pub open spec fn spec_trim(s: Seq<char>) -> Seq<char> {
    rtrim(ltrim(s))
}

/// Skipping exactly the leading spaces is what `ltrim` does.
proof fn lemma_ltrim_skip(s: Seq<char>, k: int)
    requires
        0 <= k <= s.len(),
        forall|i: int| 0 <= i < k ==> s[i] == ' ',
        k == s.len() || s[k] != ' ',
    ensures
        ltrim(s) == s.skip(k),
    decreases k,
{
    if k == 0 {
        assert(s.skip(0) =~= s);
    } else {
        assert(s[0] == ' ');
        lemma_ltrim_skip(s.drop_first(), k - 1);
        assert(s.drop_first().skip(k - 1) =~= s.skip(k));
    }
}

/// Taking everything up to the last non-space is what `rtrim` does.
proof fn lemma_rtrim_take(s: Seq<char>, k: int)
    requires
        0 <= k <= s.len(),
        forall|i: int| k <= i < s.len() ==> s[i] == ' ',
        k == 0 || s[k - 1] != ' ',
    ensures
        rtrim(s) == s.take(k),
    decreases s.len() - k,
{
    if k == s.len() {
        if s.len() > 0 && s[s.len() - 1] == ' ' {
            assert(false);
        }
        assert(s.take(k) =~= s);
    } else {
        assert(s[s.len() - 1] == ' ');
        lemma_rtrim_take(s.drop_last(), k);
        assert(s.drop_last().take(k) =~= s.take(k));
    }
}

/// Remove leading and trailing spaces.
fn trim_spaces(s: String) -> (r: String)
    ensures
        r@ == spec_trim(s@),
{
    let st = s.as_str();
    let n = st.unicode_len();
    let mut a: usize = 0;
    while a < n && st.get_char(a) == ' '
        invariant
            0 <= a <= n == st@.len(),
            forall|i: int| 0 <= i < a ==> st@[i] == ' ',
        decreases n - a,
    {
        a = a + 1;
    }
    if a == n {
        proof {
            lemma_ltrim_skip(st@, a as int);
            assert(st@.skip(a as int) =~= Seq::<char>::empty());
            assert(rtrim(Seq::<char>::empty()) =~= Seq::<char>::empty());
            reveal_strlit("");
            assert(""@ =~= Seq::<char>::empty());
        }
        return String::from_str("");
    }
    let mut b: usize = n;
    while b > a && st.get_char(b - 1) == ' '
        invariant
            a <= b <= n == st@.len(),
            a < n,
            st@[a as int] != ' ',
            forall|i: int| b <= i < n ==> st@[i] == ' ',
        decreases b,
    {
        b = b - 1;
    }
    let sub = st.substring_char(a, b);
    proof {
        lemma_ltrim_skip(st@, a as int);
        lemma_rtrim_take(st@.skip(a as int), b - a);
        assert(st@.skip(a as int).take(b - a) =~= st@.subrange(a as int, b as int));
    }
    String::from_str(sub)
}

/// How composed time renderings separate a number from its unit.
#[derive(Debug, Clone, Copy, PartialEq, Eq, Structural)]
pub enum BreakStyle {
    Break,
    Newline,
    Space,
    Nothing,
}

/// The separator a break style puts between a number and its unit.
pub open spec fn spec_break_sep(breaks: BreakStyle) -> Seq<char> {
    match breaks {
        BreakStyle::Break => "<br>"@,
        BreakStyle::Newline => "\n"@,
        BreakStyle::Space => " "@,
        BreakStyle::Nothing => ""@,
    }
}

/// The coarsest unit a time rendering descends to.
#[derive(Debug, Clone, Copy, PartialEq, Eq, Structural)]
pub enum TimeGranularity {
    Days,
    Hours,
    Minutes,
    Seconds,
}

/// Days, hours, minutes and seconds of a non-negative second count.
pub open spec fn spec_days(s: int) -> int {
    s / 86400
}

pub open spec fn spec_hours(s: int) -> int {
    (s % 86400) / 3600
}

pub open spec fn spec_minutes(s: int) -> int {
    (s % 3600) / 60
}

pub open spec fn spec_seconds(s: int) -> int {
    s % 60
}

/// One component of a rendering: nothing for zero, the number with the
/// singular unit for one, the plural unit otherwise.
pub open spec fn spec_part(n: int, sep: Seq<char>, singular: Seq<char>, plural: Seq<char>) -> Seq<
    char,
> {
    if n == 0 {
        Seq::empty()
    } else if n == 1 {
        spec_digits(n) + sep + singular
    } else {
        spec_digits(n) + sep + plural
    }
}

/// The composed rendering of a non-negative second count, down to the
/// requested granularity, before trimming.
pub open spec fn spec_pretty_time_untrimmed(
    s: int,
    breaks: BreakStyle,
    granularity: TimeGranularity,
) -> Seq<char> {
    let sep = spec_break_sep(breaks);
    let days = spec_part(spec_days(s), sep, "day"@, "days"@);
    let hours = spec_part(spec_hours(s), sep, "hour"@, "hours"@);
    let minutes = spec_part(spec_minutes(s), sep, "minute"@, "minutes"@);
    let seconds = spec_part(spec_seconds(s), sep, "second"@, "seconds"@);
    match granularity {
        TimeGranularity::Days => days,
        TimeGranularity::Hours => days + " "@ + hours,
        TimeGranularity::Minutes => days + " "@ + hours + " "@ + minutes,
        TimeGranularity::Seconds => days + " "@ + hours + " "@ + minutes + " "@ + seconds,
    }
}

/// The rendering of a non-negative second count.
pub open spec fn spec_pretty_time(s: int, breaks: BreakStyle, granularity: TimeGranularity) -> Seq<
    char,
> {
    spec_trim(spec_pretty_time_untrimmed(s, breaks, granularity))
}

/// The break separator as a string slice.
fn break_sep(breaks: &BreakStyle) -> (r: &'static str)
    ensures
        r@ == spec_break_sep(*breaks),
{
    match breaks {
        BreakStyle::Break => "<br>",
        BreakStyle::Newline => "\n",
        BreakStyle::Space => " ",
        BreakStyle::Nothing => "",
    }
}

/// One rendered component.
fn part(n: u64, sep: &str, singular: &str, plural: &str) -> (r: String)
    ensures
        r@ == spec_part(n as int, sep@, singular@, plural@),
{
    if n == 0 {
        let r = String::from_str("");
        proof {
            reveal_strlit("");
            assert(""@ =~= Seq::<char>::empty());
        }
        r
    } else if n == 1 {
        u64_to_string(n).concat(sep).concat(singular)
    } else {
        u64_to_string(n).concat(sep).concat(plural)
    }
}

/// Render a second count with full words for the units, composed at the
/// requested granularity and separated as the break style says.  A
/// negative count renders as the empty string.
pub fn pretty_time(seconds: i64, breaks: BreakStyle, granularity: TimeGranularity) -> (r: String)
    ensures
        seconds >= 0 ==> r@ == spec_pretty_time(seconds as int, breaks, granularity),
        seconds < 0 ==> r@ == Seq::<char>::empty(),
{
    if seconds < 0 {
        let r = String::from_str("");
        proof {
            reveal_strlit("");
            assert(""@ =~= Seq::<char>::empty());
        }
        return r;
    }
    let s = seconds as u64;
    let sep = break_sep(&breaks);
    let days = part(s / 86400, sep, "day", "days");
    let hours = part((s % 86400) / 3600, sep, "hour", "hours");
    let minutes = part((s % 3600) / 60, sep, "minute", "minutes");
    let secs = part(s % 60, sep, "second", "seconds");
    let joined = match granularity {
        TimeGranularity::Days => days,
        TimeGranularity::Hours => days.concat(" ").concat(hours.as_str()),
        TimeGranularity::Minutes => days.concat(" ").concat(hours.as_str()).concat(" ").concat(
            minutes.as_str(),
        ),
        TimeGranularity::Seconds => days.concat(" ").concat(hours.as_str()).concat(" ").concat(
            minutes.as_str(),
        ).concat(" ").concat(secs.as_str()),
    };
    trim_spaces(joined)
}

/// The compact rendering of a non-negative second count: single-letter
/// units and no separator.
pub open spec fn spec_pretty_time_short(s: int) -> Seq<char> {
    spec_trim(
        spec_part(spec_days(s), ""@, "d"@, "d"@) + " "@ + spec_part(spec_hours(s), ""@, "h"@, "h"@)
            + " "@ + spec_part(spec_minutes(s), ""@, "m"@, "m"@) + " "@ + spec_part(
            spec_seconds(s),
            ""@,
            "s"@,
            "s"@,
        ),
    )
}

/// Render a second count compactly: `1d 2h 3m 4s`, with zero components
/// left out.  A negative count renders as the empty string.
pub fn pretty_time_short(seconds: i64) -> (r: String)
    ensures
        seconds >= 0 ==> r@ == spec_pretty_time_short(seconds as int),
        seconds < 0 ==> r@ == Seq::<char>::empty(),
{
    if seconds < 0 {
        let r = String::from_str("");
        proof {
            reveal_strlit("");
            assert(""@ =~= Seq::<char>::empty());
        }
        return r;
    }
    let s = seconds as u64;
    let days = part(s / 86400, "", "d", "d");
    let hours = part((s % 86400) / 3600, "", "h", "h");
    let minutes = part((s % 3600) / 60, "", "m", "m");
    let secs = part(s % 60, "", "s", "s");
    let joined = days.concat(" ").concat(hours.as_str()).concat(" ").concat(minutes.as_str())
        .concat(" ").concat(secs.as_str());
    trim_spaces(joined)
}

/// The long rendering of a non-negative second count: full words joined by
/// spaces.
pub open spec fn spec_pretty_time_long(s: int) -> Seq<char> {
    spec_pretty_time(s, BreakStyle::Space, TimeGranularity::Seconds)
}

/// Render a second count with full words: `1 day 2 hours 3 minutes`.  A
/// negative count renders as the empty string.
pub fn pretty_time_long(seconds: i64) -> (r: String)
    ensures
        seconds >= 0 ==> r@ == spec_pretty_time_long(seconds as int),
        seconds < 0 ==> r@ == Seq::<char>::empty(),
{
    pretty_time(seconds, BreakStyle::Space, TimeGranularity::Seconds)
}

/// Render a second count with full words and HTML line breaks between the
/// number and its unit.
pub fn to_pretty_time(seconds: u32) -> (r: String)
    ensures
        r@ == spec_pretty_time(seconds as int, BreakStyle::Break, TimeGranularity::Seconds),
{
    pretty_time(seconds as i64, BreakStyle::Break, TimeGranularity::Seconds)
}

/// The rendering of a byte count in decimal units.
pub open spec fn spec_pretty_size(size: int) -> Seq<char> {
    if size < 1000 {
        spec_digits(size) + " B"@
    } else if size < 1000000 {
        spec_digits(size / 1000) + " kB"@
    } else if size < 1000000000 {
        spec_digits(size / 1000000) + " MB"@
    } else if size < 1000000000000 {
        spec_digits(size / 1000000000) + " GB"@
    } else if size < 1000000000000000 {
        spec_digits(size / 1000000000000) + " TB"@
    } else if size < 1000000000000000000 {
        spec_digits(size / 1000000000000000) + " PB"@
    } else {
        spec_digits(size / 1000000000000000000) + " EB"@
    }
}

/// Render a byte count with its decimal unit, from bytes up to exabytes.
pub fn to_pretty_size(size: u64) -> (r: String)
    ensures
        r@ == spec_pretty_size(size as int),
{
    if size < 1000 {
        u64_to_string(size).concat(" B")
    } else if size < 1000000 {
        u64_to_string(size / 1000).concat(" kB")
    } else if size < 1000000000 {
        u64_to_string(size / 1000000).concat(" MB")
    } else if size < 1000000000000 {
        u64_to_string(size / 1000000000).concat(" GB")
    } else if size < 1000000000000000 {
        u64_to_string(size / 1000000000000).concat(" TB")
    } else if size < 1000000000000000000 {
        u64_to_string(size / 1000000000000000).concat(" PB")
    } else {
        u64_to_string(size / 1000000000000000000).concat(" EB")
    }
}

/// Why a duration string was refused.
#[derive(Debug, Clone, Copy, PartialEq, Eq, Structural)]
pub enum TimeStringError {
    /// Not a valid time string.
    Invalid,
}

/// The seconds one unit letter stands for.
pub open spec fn spec_unit_seconds(b: u8) -> Option<int> {
    if b == 0x44 || b == 0x64 {
        Some(86400int)
    } else if b == 0x48 || b == 0x68 {
        Some(3600int)
    } else if b == 0x4d || b == 0x6d {
        Some(60int)
    } else if b == 0x53 || b == 0x73 {
        Some(1int)
    } else {
        None
    }
}

/// The byte is an ASCII letter.
pub open spec fn is_ascii_alphabetic_byte(b: u8) -> bool {
    (0x41 <= b <= 0x5a) || (0x61 <= b <= 0x7a)
}

/// The byte is an ASCII decimal digit.
pub open spec fn is_digit_byte(b: u8) -> bool {
    0x30 <= b <= 0x39
}

/// The number a sequence of digit bytes spells.
pub open spec fn spec_digits_value(s: Seq<u8>) -> int
    decreases s.len(),
{
    if s.len() == 0 {
        0
    } else {
        spec_digits_value(s.drop_last()) * 10 + (s[s.len() - 1] - 0x30)
    }
}

/// Every byte is an ASCII decimal digit.
pub open spec fn all_digit_bytes(s: Seq<u8>) -> bool {
    forall|i: int| 0 <= i < s.len() ==> is_digit_byte(#[trigger] s[i])
}

/// The number a count prefix spells, with an optional sign, within the
/// 32-bit signed range.
pub open spec fn spec_parse_i32(s: Seq<u8>) -> Option<int> {
    let digits = if s.len() > 0 && (s[0] == 0x2b || s[0] == 0x2d) {
        s.drop_first()
    } else {
        s
    };
    let negative = s.len() > 0 && s[0] == 0x2d;
    if digits.len() == 0 || !all_digit_bytes(digits) {
        None
    } else {
        let v = if negative {
            -spec_digits_value(digits)
        } else {
            spec_digits_value(digits)
        };
        if -0x80000000 <= v < 0x80000000 {
            Some(v)
        } else {
            None
        }
    }
}

/// What a duration string denotes: a count followed by a unit letter, at
/// most seven bytes in all.
pub open spec fn spec_parse_time_string(s: Seq<u8>) -> Option<int> {
    if s.len() > 7 || s.len() == 0 {
        None
    } else if !is_ascii_alphabetic_byte(s[s.len() - 1]) {
        None
    } else {
        match spec_unit_seconds(s[s.len() - 1]) {
            None => None,
            Some(unit) => match spec_parse_i32(s.drop_last()) {
                None => None,
                Some(v) => Some(unit * v),
            },
        }
    }
}

/// Parse a duration string such as `30m` or `2d` into seconds.
pub fn parse_time_string(string: &str) -> (r: Result<i64, TimeStringError>)
    ensures
        match r {
            Ok(secs) => spec_parse_time_string(string.spec_bytes()) == Some(secs as int),
            Err(_) => spec_parse_time_string(string.spec_bytes()) is None,
        },
{
    let bytes = string.as_bytes_vec();
    let n = bytes.len();
    if n > 7 || n == 0 {
        return Err(TimeStringError::Invalid);
    }
    let unit_byte = bytes[n - 1];
    let alphabetic = (0x41 <= unit_byte && unit_byte <= 0x5a) || (0x61 <= unit_byte && unit_byte
        <= 0x7a);
    if !alphabetic {
        return Err(TimeStringError::Invalid);
    }
    let unit: i64 = if unit_byte == 0x44 || unit_byte == 0x64 {
        86400
    } else if unit_byte == 0x48 || unit_byte == 0x68 {
        3600
    } else if unit_byte == 0x4d || unit_byte == 0x6d {
        60
    } else if unit_byte == 0x53 || unit_byte == 0x73 {
        1
    } else {
        return Err(TimeStringError::Invalid);
    };
    let value = match parse_i32_bytes(&bytes, n - 1) {
        Some(v) => v,
        None => {
            return Err(TimeStringError::Invalid);
        },
    };
    proof {
        assert(unit * value <= 86400 * 0x80000000 && unit * value >= -(86400 * 0x80000000)) by (nonlinear_arith)
            requires
                1 <= unit <= 86400,
                -0x80000000 <= value < 0x80000000,
        ;
        assert(bytes@.take(bytes@.len() - 1) =~= string.spec_bytes().drop_last());
    }
    Ok(unit * value)
}

/// Parse the first `end` bytes of `b` as a signed 32-bit count.
#[verifier::loop_isolation(false)]
fn parse_i32_bytes(b: &Vec<u8>, end: usize) -> (r: Option<i64>)
    requires
        end <= b@.len(),
    ensures
        match r {
            Some(v) => spec_parse_i32(b@.take(end as int)) == Some(v as int) && -0x80000000 <= v
                < 0x80000000,
            None => spec_parse_i32(b@.take(end as int)) is None,
        },
{
    let ghost s = b@.take(end as int);
    let mut start: usize = 0;
    let mut negative = false;
    if end > 0 && (b[0] == 0x2b || b[0] == 0x2d) {
        negative = b[0] == 0x2d;
        start = 1;
    }
    if end == start {
        return None;
    }
    let ghost digits = if s.len() > 0 && (s[0] == 0x2b || s[0] == 0x2d) {
        s.drop_first()
    } else {
        s
    };
    proof {
        assert(digits =~= s.subrange(start as int, end as int));
    }
    let mut acc: i64 = 0;
    let mut i: usize = start;
    while i < end
        invariant
            start <= i <= end <= b@.len(),
            s == b@.take(end as int),
            digits == (if s.len() > 0 && (s[0] == 0x2b || s[0] == 0x2d) {
                s.drop_first()
            } else {
                s
            }),
            digits == b@.take(end as int).subrange(start as int, end as int),
            negative == (s.len() > 0 && s[0] == 0x2d),
            forall|j: int| start <= j < i ==> is_digit_byte(#[trigger] b@[j]),
            acc == spec_digits_value(digits.take(i - start)),
            0 <= acc <= 0x80000000,
        decreases end - i,
    {
        let c = b[i];
        if !(0x30 <= c && c <= 0x39) {
            proof {
                assert(digits[i - start] == b@[i as int]);
                assert(!all_digit_bytes(digits));
            }
            return None;
        }
        let d = (c - 0x30) as i64;
        if acc > (0x80000000i64 - d) / 10 {
            proof {
                // The running value can only grow with further digits, so
                // once it leaves the 32-bit range the whole prefix is out.
                assert(digits.take(i - start + 1) =~= digits.take(i - start).push(
                    digits[i - start],
                ));
                lemma_digits_value_snoc(digits.take(i - start), digits[i - start]);
                assert(digits[i - start] == b@[i as int]);
                assert(spec_digits_value(digits.take(i - start + 1)) == acc * 10 + d);
                assert(acc * 10 + d > 0x80000000) by (nonlinear_arith)
                    requires
                        acc > (0x80000000i64 - d) / 10,
                        0 <= d < 10,
                        acc >= 0,
                ;
                if all_digit_bytes(digits) {
                    lemma_digits_value_grows(digits, i - start + 1, digits.len() as int);
                    assert(digits.take(digits.len() as int) =~= digits);
                    lemma_digits_value_nonneg(digits);
                    assert(spec_digits_value(digits) > 0x80000000);
                }
            }
            return None;
        }
        proof {
            assert(digits.take(i - start + 1) =~= digits.take(i - start).push(digits[i - start]));
            lemma_digits_value_snoc(digits.take(i - start), digits[i - start]);
            assert(acc * 10 + d <= 0x80000000) by (nonlinear_arith)
                requires
                    acc <= (0x80000000i64 - d) / 10,
                    0 <= d < 10,
                    acc >= 0,
            ;
        }
        acc = acc * 10 + d;
        i = i + 1;
    }
    proof {
        assert(digits.take(digits.len() as int) =~= digits);
    }
    if negative {
        Some(-acc)
    } else {
        if acc >= 0x80000000 {
            return None;
        }
        Some(acc)
    }
}

/// A longer digit string spells at least as large a number.
proof fn lemma_digits_value_grows(s: Seq<u8>, a: int, b: int)
    requires
        0 <= a <= b <= s.len(),
        all_digit_bytes(s),
    ensures
        spec_digits_value(s.take(a)) <= spec_digits_value(s.take(b)),
    decreases b - a,
{
    if a < b {
        lemma_digits_value_grows(s, a, b - 1);
        assert(s.take(b).drop_last() =~= s.take(b - 1));
        assert(spec_digits_value(s.take(b)) == spec_digits_value(s.take(b - 1)) * 10 + (s[b - 1]
            - 0x30));
        assert forall|i: int| 0 <= i < s.take(b - 1).len() implies is_digit_byte(
            #[trigger] s.take(b - 1)[i],
        ) by {
            assert(s.take(b - 1)[i] == s[i]);
        }
        assert(all_digit_bytes(s.take(b - 1)));
        lemma_digits_value_nonneg(s.take(b - 1));
        assert(spec_digits_value(s.take(b - 1)) * 10 >= spec_digits_value(s.take(b - 1)))
            by (nonlinear_arith)
            requires
                spec_digits_value(s.take(b - 1)) >= 0,
        ;
    }
}

/// Digit strings spell non-negative numbers.
proof fn lemma_digits_value_nonneg(s: Seq<u8>)
    requires
        all_digit_bytes(s),
    ensures
        spec_digits_value(s) >= 0,
    decreases s.len(),
{
    if s.len() > 0 {
        assert(s.drop_last() =~= s.take(s.len() - 1));
        assert(all_digit_bytes(s.drop_last()));
        lemma_digits_value_nonneg(s.drop_last());
        assert(spec_digits_value(s.drop_last()) * 10 >= 0) by (nonlinear_arith)
            requires
                spec_digits_value(s.drop_last()) >= 0,
        ;
    }
}

/// Appending a digit multiplies by ten and adds it.
proof fn lemma_digits_value_snoc(s: Seq<u8>, d: u8)
    ensures
        spec_digits_value(s.push(d)) == spec_digits_value(s) * 10 + (d - 0x30),
{
    assert(s.push(d).drop_last() =~= s);
    assert(s.push(d)[s.push(d).len() - 1] == d);
}

} // verus!
