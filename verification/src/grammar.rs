//! The grammar of the timestamps that open a log line.
//!
//! A line may open with one of four shapes, tried in this order, each read
//! greedily and without going back once a part has matched:
//!
//! - year first: `YYYY-MM-DD hh:mm:ss` (date separators `-`, `/` or `.`; `T`,
//!   `t` or a space before the time), then optionally `.` or `,` and one to nine
//!   digits, then optionally blanks and a zone (`Z`, `z`, `UTC`, `GMT`, `+hh:mm`
//!   or `+hhmm`, or the same with `-`), taken only when the timestamp is closed
//!   right after it, else the timestamp ends before the blanks;
//! - RFC 2822: `Sat, 12 Sep 2026 10:00:00` and a zone (`+hhmm`, `-hhmm`, `GMT`,
//!   `UTC` or `UT`);
//! - Apache: `12/Sep/2026:10:00:00 +hhmm`;
//! - Unix time: an optional `-` and 19, 16, 13 or 10 digits, the longest that fits.
//!
//! A timestamp is closed where the line ends or whitespace follows, or, inside
//! brackets, where `]` follows.
//!
//! A digit here is a decimal digit of any script (Unicode `Nd`); reading the
//! instant of a timestamp then needs ASCII digits.
use vstd::prelude::*;

use crate::text::{is_space, is_space_char};

verus! {

/// A decimal digit: the Unicode general category `Nd` (Decimal_Number), as of
/// Unicode 16. The ASCII digits are among them, and so are the digits of many
/// other scripts.
#[verifier::opaque]
pub open spec fn is_decimal(c: char) -> bool {
    let u = c as u32;
    ||| 0x30 <= u <= 0x39
    ||| 0x660 <= u <= 0x669
    ||| 0x6F0 <= u <= 0x6F9
    ||| 0x7C0 <= u <= 0x7C9
    ||| 0x966 <= u <= 0x96F
    ||| 0x9E6 <= u <= 0x9EF
    ||| 0xA66 <= u <= 0xA6F
    ||| 0xAE6 <= u <= 0xAEF
    ||| 0xB66 <= u <= 0xB6F
    ||| 0xBE6 <= u <= 0xBEF
    ||| 0xC66 <= u <= 0xC6F
    ||| 0xCE6 <= u <= 0xCEF
    ||| 0xD66 <= u <= 0xD6F
    ||| 0xDE6 <= u <= 0xDEF
    ||| 0xE50 <= u <= 0xE59
    ||| 0xED0 <= u <= 0xED9
    ||| 0xF20 <= u <= 0xF29
    ||| 0x1040 <= u <= 0x1049
    ||| 0x1090 <= u <= 0x1099
    ||| 0x17E0 <= u <= 0x17E9
    ||| 0x1810 <= u <= 0x1819
    ||| 0x1946 <= u <= 0x194F
    ||| 0x19D0 <= u <= 0x19D9
    ||| 0x1A80 <= u <= 0x1A89
    ||| 0x1A90 <= u <= 0x1A99
    ||| 0x1B50 <= u <= 0x1B59
    ||| 0x1BB0 <= u <= 0x1BB9
    ||| 0x1C40 <= u <= 0x1C49
    ||| 0x1C50 <= u <= 0x1C59
    ||| 0xA620 <= u <= 0xA629
    ||| 0xA8D0 <= u <= 0xA8D9
    ||| 0xA900 <= u <= 0xA909
    ||| 0xA9D0 <= u <= 0xA9D9
    ||| 0xA9F0 <= u <= 0xA9F9
    ||| 0xAA50 <= u <= 0xAA59
    ||| 0xABF0 <= u <= 0xABF9
    ||| 0xFF10 <= u <= 0xFF19
    ||| 0x104A0 <= u <= 0x104A9
    ||| 0x10D30 <= u <= 0x10D39
    ||| 0x10D40 <= u <= 0x10D49
    ||| 0x11066 <= u <= 0x1106F
    ||| 0x110F0 <= u <= 0x110F9
    ||| 0x11136 <= u <= 0x1113F
    ||| 0x111D0 <= u <= 0x111D9
    ||| 0x112F0 <= u <= 0x112F9
    ||| 0x11450 <= u <= 0x11459
    ||| 0x114D0 <= u <= 0x114D9
    ||| 0x11650 <= u <= 0x11659
    ||| 0x116C0 <= u <= 0x116C9
    ||| 0x116D0 <= u <= 0x116E3
    ||| 0x11730 <= u <= 0x11739
    ||| 0x118E0 <= u <= 0x118E9
    ||| 0x11950 <= u <= 0x11959
    ||| 0x11BF0 <= u <= 0x11BF9
    ||| 0x11C50 <= u <= 0x11C59
    ||| 0x11D50 <= u <= 0x11D59
    ||| 0x11DA0 <= u <= 0x11DA9
    ||| 0x11F50 <= u <= 0x11F59
    ||| 0x16130 <= u <= 0x16139
    ||| 0x16A60 <= u <= 0x16A69
    ||| 0x16AC0 <= u <= 0x16AC9
    ||| 0x16B50 <= u <= 0x16B59
    ||| 0x16D70 <= u <= 0x16D79
    ||| 0x1CCF0 <= u <= 0x1CCF9
    ||| 0x1D7CE <= u <= 0x1D7FF
    ||| 0x1E140 <= u <= 0x1E149
    ||| 0x1E2F0 <= u <= 0x1E2F9
    ||| 0x1E4F0 <= u <= 0x1E4F9
    ||| 0x1E5F1 <= u <= 0x1E5FA
    ||| 0x1E950 <= u <= 0x1E959
    ||| 0x1FBF0 <= u <= 0x1FBF9
}

pub fn is_decimal_char(c: char) -> (b: bool)
    ensures
        b == is_decimal(c),
{
    proof {
        reveal(is_decimal);
    }
    let u = c as u32;
    (0x30 <= u && u <= 0x39) || (0x660 <= u && u <= 0x669) || (0x6F0 <= u && u <= 0x6F9) || (0x7C0 <= u && u <= 0x7C9) || (0x966 <= u && u <= 0x96F) || (0x9E6 <= u && u <= 0x9EF) || (0xA66 <= u && u <= 0xA6F) || (0xAE6 <= u && u <= 0xAEF) || (0xB66 <= u && u <= 0xB6F) || (0xBE6 <= u && u <= 0xBEF) || (0xC66 <= u && u <= 0xC6F) || (0xCE6 <= u && u <= 0xCEF) || (0xD66 <= u && u <= 0xD6F) || (0xDE6 <= u && u <= 0xDEF) || (0xE50 <= u && u <= 0xE59) || (0xED0 <= u && u <= 0xED9) || (0xF20 <= u && u <= 0xF29) || (0x1040 <= u && u <= 0x1049) || (0x1090 <= u && u <= 0x1099) || (0x17E0 <= u && u <= 0x17E9) || (0x1810 <= u && u <= 0x1819) || (0x1946 <= u && u <= 0x194F) || (0x19D0 <= u && u <= 0x19D9) || (0x1A80 <= u && u <= 0x1A89) || (0x1A90 <= u && u <= 0x1A99) || (0x1B50 <= u && u <= 0x1B59) || (0x1BB0 <= u && u <= 0x1BB9) || (0x1C40 <= u && u <= 0x1C49) || (0x1C50 <= u && u <= 0x1C59) || (0xA620 <= u && u <= 0xA629) || (0xA8D0 <= u && u <= 0xA8D9) || (0xA900 <= u && u <= 0xA909) || (0xA9D0 <= u && u <= 0xA9D9) || (0xA9F0 <= u && u <= 0xA9F9) || (0xAA50 <= u && u <= 0xAA59) || (0xABF0 <= u && u <= 0xABF9) || (0xFF10 <= u && u <= 0xFF19) || (0x104A0 <= u && u <= 0x104A9) || (0x10D30 <= u && u <= 0x10D39) || (0x10D40 <= u && u <= 0x10D49) || (0x11066 <= u && u <= 0x1106F) || (0x110F0 <= u && u <= 0x110F9) || (0x11136 <= u && u <= 0x1113F) || (0x111D0 <= u && u <= 0x111D9) || (0x112F0 <= u && u <= 0x112F9) || (0x11450 <= u && u <= 0x11459) || (0x114D0 <= u && u <= 0x114D9) || (0x11650 <= u && u <= 0x11659) || (0x116C0 <= u && u <= 0x116C9) || (0x116D0 <= u && u <= 0x116E3) || (0x11730 <= u && u <= 0x11739) || (0x118E0 <= u && u <= 0x118E9) || (0x11950 <= u && u <= 0x11959) || (0x11BF0 <= u && u <= 0x11BF9) || (0x11C50 <= u && u <= 0x11C59) || (0x11D50 <= u && u <= 0x11D59) || (0x11DA0 <= u && u <= 0x11DA9) || (0x11F50 <= u && u <= 0x11F59) || (0x16130 <= u && u <= 0x16139) || (0x16A60 <= u && u <= 0x16A69) || (0x16AC0 <= u && u <= 0x16AC9) || (0x16B50 <= u && u <= 0x16B59) || (0x16D70 <= u && u <= 0x16D79) || (0x1CCF0 <= u && u <= 0x1CCF9) || (0x1D7CE <= u && u <= 0x1D7FF) || (0x1E140 <= u && u <= 0x1E149) || (0x1E2F0 <= u && u <= 0x1E2F9) || (0x1E4F0 <= u && u <= 0x1E4F9) || (0x1E5F1 <= u && u <= 0x1E5FA) || (0x1E950 <= u && u <= 0x1E959) || (0x1FBF0 <= u && u <= 0x1FBF9)
}

/// Position `i` of `s` holds a decimal digit.
pub open spec fn dg(s: Seq<char>, i: int) -> bool {
    0 <= i < s.len() && is_decimal(s[i])
}

/// Position `i` of `s` holds `c`.
pub open spec fn ch(s: Seq<char>, i: int, c: char) -> bool {
    0 <= i < s.len() && s[i] == c
}

pub open spec fn upper(s: Seq<char>, i: int) -> bool {
    0 <= i < s.len() && 'A' <= s[i] && s[i] <= 'Z'
}

pub open spec fn lower(s: Seq<char>, i: int) -> bool {
    0 <= i < s.len() && 'a' <= s[i] && s[i] <= 'z'
}

pub open spec fn date_sep(s: Seq<char>, i: int) -> bool {
    ch(s, i, '-') || ch(s, i, '/') || ch(s, i, '.')
}

pub open spec fn sign(s: Seq<char>, i: int) -> bool {
    ch(s, i, '+') || ch(s, i, '-')
}

/// `s` holds the two characters `a`, `b` at position `i`.
pub open spec fn text2(s: Seq<char>, i: int, a: char, b: char) -> bool {
    ch(s, i, a) && ch(s, i + 1, b)
}

/// `s` holds the three characters `a`, `b`, `c` at position `i`.
pub open spec fn text3(s: Seq<char>, i: int, a: char, b: char, c: char) -> bool {
    ch(s, i, a) && ch(s, i + 1, b) && ch(s, i + 2, c)
}

/// The number of decimal digits at position `i` and after.
pub open spec fn digit_run(s: Seq<char>, i: int) -> nat
    decreases s.len() - i,
{
    if dg(s, i) {
        1 + digit_run(s, i + 1)
    } else {
        0
    }
}

/// The number of spaces and tabs at position `i` and after.
pub open spec fn blank_run(s: Seq<char>, i: int) -> nat
    decreases s.len() - i,
{
    if ch(s, i, ' ') || ch(s, i, '\t') {
        1 + blank_run(s, i + 1)
    } else {
        0
    }
}

/// `hh:mm:ss` at position `i`.
pub open spec fn clock_at(s: Seq<char>, i: int) -> bool {
    &&& dg(s, i) && dg(s, i + 1)
    &&& ch(s, i + 2, ':')
    &&& dg(s, i + 3) && dg(s, i + 4)
    &&& ch(s, i + 5, ':')
    &&& dg(s, i + 6) && dg(s, i + 7)
}

/// The date and time that open the year-first shape: nineteen characters.
pub open spec fn year_first_core(s: Seq<char>) -> bool {
    &&& dg(s, 0) && dg(s, 1) && dg(s, 2) && dg(s, 3)
    &&& date_sep(s, 4)
    &&& dg(s, 5) && dg(s, 6)
    &&& date_sep(s, 7)
    &&& dg(s, 8) && dg(s, 9)
    &&& (ch(s, 10, 'T') || ch(s, 10, 't') || ch(s, 10, ' '))
    &&& clock_at(s, 11)
}

/// The length of the fraction of a second at position `i`: a `.` or `,` and as
/// many digits as there are, nine at most; zero when there is none.
pub open spec fn fraction_len(s: Seq<char>, i: int) -> nat {
    if (ch(s, i, '.') || ch(s, i, ',')) && dg(s, i + 1) {
        1 + (if digit_run(s, i + 1) < 9 {
            digit_run(s, i + 1)
        } else {
            9
        })
    } else {
        0
    }
}

/// The length of the zone of the year-first shape at position `i`; zero when
/// there is none.
pub open spec fn year_first_zone_len(s: Seq<char>, i: int) -> nat {
    if ch(s, i, 'Z') || ch(s, i, 'z') {
        1
    } else if text3(s, i, 'U', 'T', 'C') || text3(s, i, 'G', 'M', 'T') {
        3
    } else if sign(s, i) && dg(s, i + 1) && dg(s, i + 2) {
        if ch(s, i + 3, ':') && dg(s, i + 4) && dg(s, i + 5) {
            6
        } else if dg(s, i + 3) && dg(s, i + 4) {
            5
        } else {
            0
        }
    } else {
        0
    }
}

/// A timestamp that ends at position `m` of `s` is closed there: by the end of
/// the line or whitespace, or by `]` inside brackets.
pub open spec fn closed_at(s: Seq<char>, m: int, bracketed: bool) -> bool {
    if bracketed {
        ch(s, m, ']')
    } else {
        m >= s.len() || is_space(s[m])
    }
}

/// The length of a year-first timestamp at the start of `s`: with its blanks
/// and zone when the timestamp is closed after them, else without them.
pub open spec fn year_first_len(s: Seq<char>, bracketed: bool) -> Option<nat> {
    if year_first_core(s) {
        let p: int = 19 + fraction_len(s, 19) as int;
        let q: int = p + blank_run(s, p);
        let z = year_first_zone_len(s, q);
        Some(
            (if z > 0 && closed_at(s, q + z, bracketed) {
                q + z
            } else {
                p
            }) as nat,
        )
    } else {
        None
    }
}

/// An English day name of three letters at the start of `s`.
pub open spec fn weekday(s: Seq<char>) -> bool {
    ||| text3(s, 0, 'M', 'o', 'n')
    ||| text3(s, 0, 'T', 'u', 'e')
    ||| text3(s, 0, 'W', 'e', 'd')
    ||| text3(s, 0, 'T', 'h', 'u')
    ||| text3(s, 0, 'F', 'r', 'i')
    ||| text3(s, 0, 'S', 'a', 't')
    ||| text3(s, 0, 'S', 'u', 'n')
}

/// The number of digits of the day of an RFC 2822 timestamp (one or two, then a
/// space); zero when they are not there.
pub open spec fn rfc2822_day_len(s: Seq<char>) -> nat {
    if dg(s, 5) && dg(s, 6) && ch(s, 7, ' ') {
        2
    } else if dg(s, 5) && ch(s, 6, ' ') {
        1
    } else {
        0
    }
}

/// The length of the zone that closes an RFC 2822 timestamp at position `i`; zero
/// when there is none.
pub open spec fn rfc2822_zone_len(s: Seq<char>, i: int) -> nat {
    if sign(s, i) && dg(s, i + 1) && dg(s, i + 2) && dg(s, i + 3) && dg(s, i + 4) {
        5
    } else if text3(s, i, 'G', 'M', 'T') || text3(s, i, 'U', 'T', 'C') {
        3
    } else if text2(s, i, 'U', 'T') {
        2
    } else {
        0
    }
}

/// The length of an RFC 2822 timestamp at the start of `s`.
pub open spec fn rfc2822_len(s: Seq<char>) -> Option<nat> {
    let d = rfc2822_day_len(s);
    let p: int = 6 + d as int;
    let z = rfc2822_zone_len(s, p + 18);
    if weekday(s) && ch(s, 3, ',') && ch(s, 4, ' ') && d > 0 && upper(s, p) && lower(s, p + 1)
        && lower(s, p + 2) && ch(s, p + 3, ' ') && dg(s, p + 4) && dg(s, p + 5) && dg(s, p + 6)
        && dg(s, p + 7) && ch(s, p + 8, ' ') && clock_at(s, p + 9) && ch(s, p + 17, ' ') && z
        > 0 {
        Some((p + 18 + z) as nat)
    } else {
        None
    }
}

/// The length of an Apache timestamp at the start of `s`: always twenty-six.
pub open spec fn apache_len(s: Seq<char>) -> Option<nat> {
    if dg(s, 0) && dg(s, 1) && ch(s, 2, '/') && upper(s, 3) && lower(s, 4) && lower(s, 5) && ch(
        s,
        6,
        '/',
    ) && dg(s, 7) && dg(s, 8) && dg(s, 9) && dg(s, 10) && ch(s, 11, ':') && clock_at(s, 12)
        && ch(s, 20, ' ') && sign(s, 21) && dg(s, 22) && dg(s, 23) && dg(s, 24) && dg(s, 25) {
        Some(26)
    } else {
        None
    }
}

/// The length of a Unix timestamp at the start of `s`: an optional `-`, then the
/// first of 19, 16, 13 and 10 digits that the digits there reach.
pub open spec fn epoch_len(s: Seq<char>) -> Option<nat> {
    let off: nat = if ch(s, 0, '-') {
        1
    } else {
        0
    };
    let r = digit_run(s, off as int);
    if r >= 19 {
        Some(off + 19)
    } else if r >= 16 {
        Some(off + 16)
    } else if r >= 13 {
        Some(off + 13)
    } else if r >= 10 {
        Some(off + 10)
    } else {
        None
    }
}

/// The length of the timestamp that opens `s`, by the first shape that fits;
/// `None` when none does. `bracketed` tells whether `s` follows a `[`.
pub open spec fn timestamp_prefix(s: Seq<char>, bracketed: bool) -> Option<nat> {
    if year_first_len(s, bracketed) is Some {
        year_first_len(s, bracketed)
    } else if rfc2822_len(s) is Some {
        rfc2822_len(s)
    } else if apache_len(s) is Some {
        apache_len(s)
    } else {
        epoch_len(s)
    }
}

/// Position `k` of `s` holds an ASCII digit.
pub open spec fn ascii_digit_at(s: Seq<char>, k: int) -> bool {
    0 <= k < s.len() && '0' <= s[k] <= '9'
}

proof fn lemma_ascii_digit_is_decimal(c: char)
    requires
        '0' <= c <= '9',
    ensures
        is_decimal(c),
{
    reveal(is_decimal);
}

/// An RFC 2822 timestamp opens a line whatever its English day name: after any
/// of `Mon`, `Tue`, `Wed`, `Thu`, `Fri`, `Sat` and `Sun`, the shape
/// `Ddd, DD Mmm YYYY hh:mm:ss +hhmm` (or `-hhmm`) is read whole, all thirty-one
/// characters of it, inside brackets or not.
pub proof fn lemma_rfc2822_every_day_name(s: Seq<char>, bracketed: bool)
    requires
        s.len() >= 31,
        (s[0] == 'M' && s[1] == 'o' && s[2] == 'n') || (s[0] == 'T' && s[1] == 'u' && s[2] == 'e')
            || (s[0] == 'W' && s[1] == 'e' && s[2] == 'd') || (s[0] == 'T' && s[1] == 'h' && s[2]
            == 'u') || (s[0] == 'F' && s[1] == 'r' && s[2] == 'i') || (s[0] == 'S' && s[1] == 'a'
            && s[2] == 't') || (s[0] == 'S' && s[1] == 'u' && s[2] == 'n'),
        s[3] == ',',
        s[4] == ' ',
        ascii_digit_at(s, 5) && ascii_digit_at(s, 6),
        s[7] == ' ',
        'A' <= s[8] <= 'Z' && 'a' <= s[9] <= 'z' && 'a' <= s[10] <= 'z',
        s[11] == ' ',
        ascii_digit_at(s, 12) && ascii_digit_at(s, 13) && ascii_digit_at(s, 14) && ascii_digit_at(
            s,
            15,
        ),
        s[16] == ' ',
        ascii_digit_at(s, 17) && ascii_digit_at(s, 18),
        s[19] == ':',
        ascii_digit_at(s, 20) && ascii_digit_at(s, 21),
        s[22] == ':',
        ascii_digit_at(s, 23) && ascii_digit_at(s, 24),
        s[25] == ' ',
        s[26] == '+' || s[26] == '-',
        ascii_digit_at(s, 27) && ascii_digit_at(s, 28) && ascii_digit_at(s, 29) && ascii_digit_at(
            s,
            30,
        ),
    ensures
        timestamp_prefix(s, bracketed) == Some(31nat),
{
    assert forall|k: int| ascii_digit_at(s, k) implies dg(s, k) by {
        lemma_ascii_digit_is_decimal(s[k]);
    }
    assert(!is_decimal(s[0])) by {
        reveal(is_decimal);
    }
    assert(!year_first_core(s));
    assert(rfc2822_day_len(s) == 2);
    assert(rfc2822_zone_len(s, 26) == 5);
}

fn dg_at(v: &Vec<char>, b: usize, k: usize) -> (r: bool)
    requires
        b <= v.len(),
    ensures
        r == dg(v@, b + k),
{
    k < v.len() - b && is_decimal_char(v[b + k])
}

fn ch_at(v: &Vec<char>, b: usize, k: usize, c: char) -> (r: bool)
    requires
        b <= v.len(),
    ensures
        r == ch(v@, b + k, c),
{
    k < v.len() - b && v[b + k] == c
}

fn upper_at(v: &Vec<char>, b: usize, k: usize) -> (r: bool)
    requires
        b <= v.len(),
    ensures
        r == upper(v@, b + k),
{
    k < v.len() - b && 'A' <= v[b + k] && v[b + k] <= 'Z'
}

fn lower_at(v: &Vec<char>, b: usize, k: usize) -> (r: bool)
    requires
        b <= v.len(),
    ensures
        r == lower(v@, b + k),
{
    k < v.len() - b && 'a' <= v[b + k] && v[b + k] <= 'z'
}

fn sign_at(v: &Vec<char>, b: usize, k: usize) -> (r: bool)
    requires
        b <= v.len(),
    ensures
        r == sign(v@, b + k),
{
    ch_at(v, b, k, '+') || ch_at(v, b, k, '-')
}

fn text3_at(v: &Vec<char>, b: usize, k: usize, x: char, y: char, z: char) -> (r: bool)
    requires
        b <= v.len(),
        k < 64,
    ensures
        r == text3(v@, b + k, x, y, z),
{
    ch_at(v, b, k, x) && ch_at(v, b, k + 1, y) && ch_at(v, b, k + 2, z)
}

fn clock_exec(v: &Vec<char>, b: usize, k: usize) -> (r: bool)
    requires
        b <= v.len(),
        k < 64,
    ensures
        r == clock_at(v@, b + k),
{
    dg_at(v, b, k) && dg_at(v, b, k + 1) && ch_at(v, b, k + 2, ':') && dg_at(v, b, k + 3)
        && dg_at(v, b, k + 4) && ch_at(v, b, k + 5, ':') && dg_at(v, b, k + 6) && dg_at(
        v,
        b,
        k + 7,
    )
}

fn digit_run_exec(v: &Vec<char>, b: usize) -> (n: usize)
    requires
        b <= v.len(),
    ensures
        n == digit_run(v@, b as int),
        b + n <= v.len(),
{
    let mut i = b;
    while i < v.len() && is_decimal_char(v[i])
        invariant
            b <= i <= v.len(),
            digit_run(v@, b as int) == (i - b) + digit_run(v@, i as int),
        decreases v.len() - i,
    {
        i += 1;
    }
    i - b
}

fn blank_run_exec(v: &Vec<char>, b: usize) -> (n: usize)
    requires
        b <= v.len(),
    ensures
        n == blank_run(v@, b as int),
        b + n <= v.len(),
{
    let mut i = b;
    while i < v.len() && (v[i] == ' ' || v[i] == '\t')
        invariant
            b <= i <= v.len(),
            blank_run(v@, b as int) == (i - b) + blank_run(v@, i as int),
        decreases v.len() - i,
    {
        i += 1;
    }
    i - b
}

fn closed_exec(v: &Vec<char>, m: usize, bracketed: bool) -> (r: bool)
    requires
        m <= v.len(),
    ensures
        r == closed_at(v@, m as int, bracketed),
{
    if bracketed {
        ch_at(v, m, 0, ']')
    } else {
        m >= v.len() || is_space_char(v[m])
    }
}

fn year_first_exec(v: &Vec<char>, bracketed: bool) -> (r: Option<usize>)
    ensures
        match r {
            Some(n) => year_first_len(v@, bracketed) == Some(n as nat) && n <= v.len(),
            None => year_first_len(v@, bracketed) is None,
        },
{
    if !(dg_at(v, 0, 0) && dg_at(v, 0, 1) && dg_at(v, 0, 2) && dg_at(v, 0, 3) && (ch_at(
        v,
        0,
        4,
        '-',
    ) || ch_at(v, 0, 4, '/') || ch_at(v, 0, 4, '.')) && dg_at(v, 0, 5) && dg_at(v, 0, 6) && (
    ch_at(v, 0, 7, '-') || ch_at(v, 0, 7, '/') || ch_at(v, 0, 7, '.')) && dg_at(v, 0, 8)
        && dg_at(v, 0, 9) && (ch_at(v, 0, 10, 'T') || ch_at(v, 0, 10, 't') || ch_at(
        v,
        0,
        10,
        ' ',
    )) && clock_exec(v, 0, 11)) {
        return None;
    }
    let frac: usize = if (ch_at(v, 19, 0, '.') || ch_at(v, 19, 0, ',')) && dg_at(v, 19, 1) {
        let run = digit_run_exec(v, 20);
        1 + if run < 9 {
            run
        } else {
            9
        }
    } else {
        0
    };
    let p: usize = 19 + frac;
    let q: usize = p + blank_run_exec(v, p);
    let z: usize = if ch_at(v, q, 0, 'Z') || ch_at(v, q, 0, 'z') {
        1
    } else if text3_at(v, q, 0, 'U', 'T', 'C') || text3_at(v, q, 0, 'G', 'M', 'T') {
        3
    } else if sign_at(v, q, 0) && dg_at(v, q, 1) && dg_at(v, q, 2) {
        if ch_at(v, q, 3, ':') && dg_at(v, q, 4) && dg_at(v, q, 5) {
            6
        } else if dg_at(v, q, 3) && dg_at(v, q, 4) {
            5
        } else {
            0
        }
    } else {
        0
    };
    if z > 0 && closed_exec(v, q + z, bracketed) {
        Some(q + z)
    } else {
        Some(p)
    }
}

fn rfc2822_exec(v: &Vec<char>) -> (r: Option<usize>)
    ensures
        match r {
            Some(n) => rfc2822_len(v@) == Some(n as nat) && n <= v.len(),
            None => rfc2822_len(v@) is None,
        },
{
    let d: usize = if dg_at(v, 0, 5) && dg_at(v, 0, 6) && ch_at(v, 0, 7, ' ') {
        2
    } else if dg_at(v, 0, 5) && ch_at(v, 0, 6, ' ') {
        1
    } else {
        0
    };
    let p: usize = 6 + d;
    if !((text3_at(v, 0, 0, 'M', 'o', 'n') || text3_at(v, 0, 0, 'T', 'u', 'e') || text3_at(
        v,
        0,
        0,
        'W',
        'e',
        'd',
    ) || text3_at(v, 0, 0, 'T', 'h', 'u') || text3_at(v, 0, 0, 'F', 'r', 'i') || text3_at(
        v,
        0,
        0,
        'S',
        'a',
        't',
    ) || text3_at(v, 0, 0, 'S', 'u', 'n')) && ch_at(v, 0, 3, ',') && ch_at(v, 0, 4, ' ') && d
        > 0 && upper_at(v, 0, p) && lower_at(v, 0, p + 1) && lower_at(v, 0, p + 2) && ch_at(
        v,
        0,
        p + 3,
        ' ',
    ) && dg_at(v, 0, p + 4) && dg_at(v, 0, p + 5) && dg_at(v, 0, p + 6) && dg_at(v, 0, p + 7)
        && ch_at(v, 0, p + 8, ' ') && clock_exec(v, 0, p + 9) && ch_at(v, 0, p + 17, ' ')) {
        return None;
    }
    let b = p + 18;
    if b > v.len() {
        return None;
    }
    let z: usize = if sign_at(v, b, 0) && dg_at(v, b, 1) && dg_at(v, b, 2) && dg_at(v, b, 3)
        && dg_at(v, b, 4) {
        5
    } else if text3_at(v, b, 0, 'G', 'M', 'T') || text3_at(v, b, 0, 'U', 'T', 'C') {
        3
    } else if ch_at(v, b, 0, 'U') && ch_at(v, b, 1, 'T') {
        2
    } else {
        0
    };
    if z > 0 {
        Some(b + z)
    } else {
        None
    }
}

fn apache_exec(v: &Vec<char>) -> (r: Option<usize>)
    ensures
        match r {
            Some(n) => apache_len(v@) == Some(n as nat) && n <= v.len(),
            None => apache_len(v@) is None,
        },
{
    if dg_at(v, 0, 0) && dg_at(v, 0, 1) && ch_at(v, 0, 2, '/') && upper_at(v, 0, 3) && lower_at(
        v,
        0,
        4,
    ) && lower_at(v, 0, 5) && ch_at(v, 0, 6, '/') && dg_at(v, 0, 7) && dg_at(v, 0, 8) && dg_at(
        v,
        0,
        9,
    ) && dg_at(v, 0, 10) && ch_at(v, 0, 11, ':') && clock_exec(v, 0, 12) && ch_at(v, 0, 20, ' ')
        && sign_at(v, 0, 21) && dg_at(v, 0, 22) && dg_at(v, 0, 23) && dg_at(v, 0, 24) && dg_at(
        v,
        0,
        25,
    ) {
        Some(26)
    } else {
        None
    }
}

fn epoch_exec(v: &Vec<char>) -> (r: Option<usize>)
    ensures
        match r {
            Some(n) => epoch_len(v@) == Some(n as nat) && n <= v.len(),
            None => epoch_len(v@) is None,
        },
{
    let off: usize = if ch_at(v, 0, 0, '-') {
        1
    } else {
        0
    };
    let run = digit_run_exec(v, off);
    if run >= 19 {
        Some(off + 19)
    } else if run >= 16 {
        Some(off + 16)
    } else if run >= 13 {
        Some(off + 13)
    } else if run >= 10 {
        Some(off + 10)
    } else {
        None
    }
}

/// The length of the timestamp that opens a line, by the grammar above.
pub fn find_timestamp_prefix(v: &Vec<char>, bracketed: bool) -> (r: Option<usize>)
    ensures
        match r {
            Some(n) => timestamp_prefix(v@, bracketed) == Some(n as nat) && n <= v.len(),
            None => timestamp_prefix(v@, bracketed) is None,
        },
{
    if let Some(n) = year_first_exec(v, bracketed) {
        return Some(n);
    }
    if let Some(n) = rfc2822_exec(v) {
        return Some(n);
    }
    if let Some(n) = apache_exec(v) {
        return Some(n);
    }
    epoch_exec(v)
}

} // verus!
