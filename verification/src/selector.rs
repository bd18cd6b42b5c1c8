//! Selecting the timestamp that opens a log line.
use vstd::prelude::*;

use crate::grammar::{find_timestamp_prefix, timestamp_prefix};
use crate::text::{
    all_digits, chars_of, count_leading_space, first_word, is_digit_char, is_space, is_space_char,
    parse_i64, parse_int, replace_chars, replace_chars_in, replace_text, replace_text_in,
    string_of, trim_start, pow10, lemma_digits_value_bound, spells, sub_chars, first_word_end,
};
use crate::timestamp::{
    chrono_parse_naive, chrono_parse_with_offset, chrono_rfc2822, from_unix, parse_naive,
    parse_rfc2822, parse_with_offset, Timestamp,
};

verus! {

/// What a selector finds in a line that opens a log entry: the entry's instant
/// and the body of its message, borrowed from the line.
pub struct SelectedTimestamp<'a> {
    pub timestamp: Timestamp,
    pub message: &'a str,
}

/// The plain value of a selector's answer.
pub open spec fn answer_view<'a>(a: Option<SelectedTimestamp<'a>>) -> Option<(Timestamp, Seq<char>)> {
    match a {
        Some(s) => Some((s.timestamp, s.message@)),
        None => None,
    }
}

/// Finds the timestamp that opens a line, or answers `None` for a line that
/// continues the previous entry. A selector may keep state between lines.
pub trait TimestampSelector {
    fn select<'a>(&mut self, line: &'a str) -> Option<SelectedTimestamp<'a>>;
}

/// The selector that recognises the timestamp shapes of `crate::grammar`.
#[derive(Clone, Copy, Debug, Default)]
pub struct AutoTimestampSelector;

/// `str::trim_start_matches('-')`.
pub open spec fn trim_minus(s: Seq<char>) -> Seq<char>
    decreases s.len(),
{
    if s.len() > 0 && s[0] == '-' {
        trim_minus(s.skip(1))
    } else {
        s
    }
}

/// How many Unix-time units make a second, by the number of digits.
pub open spec fn epoch_scale(digits: nat) -> Option<int> {
    if digits == 10 {
        Some(1)
    } else if digits == 13 {
        Some(1_000)
    } else if digits == 16 {
        Some(1_000_000)
    } else if digits == 19 {
        Some(1_000_000_000)
    } else {
        None
    }
}

/// The instant of a Unix timestamp in seconds, milliseconds, microseconds or
/// nanoseconds, told apart by the number of digits.
pub open spec fn epoch_instant(text: Seq<char>) -> Option<Timestamp> {
    match (parse_i64(text), epoch_scale(trim_minus(text).len())) {
        (Some(value), Some(scale)) => Some(
            Timestamp {
                secs: (value as int / scale) as i64,
                nanos: ((value as int % scale) * (1_000_000_000int / scale)) as u32,
            },
        ),
        _ => None,
    }
}

/// The text of a year-first timestamp rewritten for `chrono`: `UTC`, `GMT`, `Z`
/// and `z` become `+0000`, `T` and `t` a space, a comma a full stop.
pub open spec fn normalize(t: Seq<char>) -> Seq<char> {
    let a = replace_text(t, "UTC"@, "+0000"@);
    let b = replace_text(a, "GMT"@, "+0000"@);
    let c = replace_chars(b, 'T', 't', " "@);
    let d = replace_chars(c, ',', ',', "."@);
    replace_chars(d, 'Z', 'z', "+0000"@)
}

/// The `chrono` format of a year-first timestamp with its date separator `d`
/// (`-`, `/` or `.`) and, for `z` 0 or 1, a zone right after the time or after a
/// space.
pub open spec fn offset_format(d: nat, z: nat) -> Seq<char> {
    if d == 0 {
        if z == 0 {
            "%Y-%m-%d %H:%M:%S%.f%z"@
        } else {
            "%Y-%m-%d %H:%M:%S%.f %z"@
        }
    } else if d == 1 {
        if z == 0 {
            "%Y/%m/%d %H:%M:%S%.f%z"@
        } else {
            "%Y/%m/%d %H:%M:%S%.f %z"@
        }
    } else {
        if z == 0 {
            "%Y.%m.%d %H:%M:%S%.f%z"@
        } else {
            "%Y.%m.%d %H:%M:%S%.f %z"@
        }
    }
}

/// The `chrono` format of a year-first timestamp without a zone.
pub open spec fn naive_format(d: nat) -> Seq<char> {
    if d == 0 {
        "%Y-%m-%d %H:%M:%S%.f"@
    } else if d == 1 {
        "%Y/%m/%d %H:%M:%S%.f"@
    } else {
        "%Y.%m.%d %H:%M:%S%.f"@
    }
}

/// The format of an Apache timestamp.
pub open spec fn apache_format() -> Seq<char> {
    "%d/%b/%Y:%H:%M:%S %z"@
}

/// The zone abbreviations that a zone-less timestamp may not be followed by.
pub open spec fn named_zone(w: Seq<char>) -> bool {
    ||| w == "EST"@
    ||| w == "EDT"@
    ||| w == "CST"@
    ||| w == "CDT"@
    ||| w == "MST"@
    ||| w == "MDT"@
    ||| w == "PST"@
    ||| w == "PDT"@
    ||| w == "CET"@
    ||| w == "CEST"@
    ||| w == "BST"@
    ||| w == "IST"@
}

/// A zone-less timestamp is refused when, outside brackets, its message opens
/// with a sign and a digit or with a zone abbreviation.
pub open spec fn refuses_zoneless(message: Seq<char>, bracketed: bool) -> bool {
    let suffix = trim_start(message);
    !bracketed && ((suffix.len() > 1 && (suffix[0] == '+' || suffix[0] == '-') && '0'
        <= suffix[1] <= '9') || named_zone(first_word(suffix)))
}

/// The instant of a normalised year-first timestamp: for each date separator in
/// turn, a parse with a zone, then with a spaced zone, then without a zone.
pub open spec fn year_first_instant(norm: Seq<char>, refuses: bool, d: nat) -> Option<Timestamp>
    decreases 3 - d,
{
    if d >= 3 {
        None
    } else if chrono_parse_with_offset(norm, offset_format(d, 0)) is Some {
        chrono_parse_with_offset(norm, offset_format(d, 0))
    } else if chrono_parse_with_offset(norm, offset_format(d, 1)) is Some {
        chrono_parse_with_offset(norm, offset_format(d, 1))
    } else if chrono_parse_naive(norm, naive_format(d)) is Some {
        if refuses {
            None
        } else {
            chrono_parse_naive(norm, naive_format(d))
        }
    } else {
        year_first_instant(norm, refuses, d + 1)
    }
}

/// The instant of a timestamp text, by the first reading that succeeds: Unix
/// time, RFC 2822, Apache, then year-first.
pub open spec fn instant_of(text: Seq<char>, message: Seq<char>, bracketed: bool) -> Option<
    Timestamp,
> {
    if all_digits(trim_minus(text)) {
        epoch_instant(text)
    } else if chrono_rfc2822(text) is Some {
        chrono_rfc2822(text)
    } else if chrono_parse_with_offset(text, apache_format()) is Some {
        chrono_parse_with_offset(text, apache_format())
    } else {
        year_first_instant(normalize(text), refuses_zoneless(message, bracketed), 0)
    }
}

/// What the automatic selector answers for a line: after leading whitespace and
/// an optional `[`, a timestamp of the grammar (closed by `]` when bracketed),
/// then the end of the line or whitespace; the message is the rest without its
/// leading whitespace. A year-first timestamp takes the blanks and zone after it
/// only when they close it, so `2026-09-12 10:00:00 zookeeper` is a zone-less
/// timestamp with the message `zookeeper`.
pub open spec fn auto_select(line: Seq<char>) -> Option<(Timestamp, Seq<char>)> {
    let l1 = trim_start(line);
    let bracketed = l1.len() > 0 && l1[0] == '[';
    let l2 = if bracketed {
        l1.skip(1)
    } else {
        l1
    };
    match timestamp_prefix(l2, bracketed) {
        None => None,
        Some(m) => {
            let text = l2.take(m as int);
            let rest = l2.skip(m as int);
            if bracketed && !(rest.len() > 0 && rest[0] == ']') {
                None
            } else {
                let message = if bracketed {
                    rest.skip(1)
                } else {
                    rest
                };
                if message.len() > 0 && !is_space(message[0]) {
                    None
                } else {
                    match instant_of(text, message, bracketed) {
                        None => None,
                        Some(t) => Some((t, trim_start(message))),
                    }
                }
            }
        },
    }
}

/// The number of `-` that open `v`.
fn leading_minus(v: &Vec<char>) -> (k: usize)
    ensures
        k <= v.len(),
        trim_minus(v@) == v@.skip(k as int),
        forall|j: int| 0 <= j < k ==> v@[j] == '-',
        k < v.len() ==> v@[k as int] != '-',
{
    let mut k: usize = 0;
    assert(v@.skip(0) == v@);
    while k < v.len() && v[k] == '-'
        invariant
            k <= v.len(),
            trim_minus(v@) == trim_minus(v@.skip(k as int)),
            forall|j: int| 0 <= j < k ==> v@[j] == '-',
        decreases v.len() - k,
    {
        assert(v@.skip(k as int).skip(1) == v@.skip(k + 1));
        k += 1;
    }
    k
}

/// The instant of a Unix timestamp text.
fn epoch_exec(text: &Vec<char>) -> (r: Option<Timestamp>)
    ensures
        r == epoch_instant(text@),
{
    let k = leading_minus(text);
    let n = text.len() - k;
    let value = match parse_int(text) {
        Some(x) => x,
        None => return None,
    };
    let (scale, mult): (i64, i64) = if n == 10 {
        (1, 1_000_000_000)
    } else if n == 13 {
        (1_000, 1_000_000)
    } else if n == 16 {
        (1_000_000, 1_000)
    } else if n == 19 {
        (1_000_000_000, 1)
    } else {
        return None;
    };
    assert(epoch_scale(trim_minus(text@).len()) == Some(scale as int));
    proof {
        let s = text@;
        let signed = s.len() > 0 && (s[0] == '-' || s[0] == '+');
        let digits = if signed { s.skip(1) } else { s };
        lemma_digits_value_bound(digits);
        if signed {
            if s[0] == '-' {
                assert(k >= 1);
                assert(digits.len() > 0 && is_digit_at(digits, 0));
                if k > 1 {
                    assert(s[1] == '-');
                    assert(digits[0] == s[1]);
                }
                assert(k == 1);
            } else {
                assert(k == 0);
            }
        } else {
            if k > 0 {
                assert(s[0] == '-');
            }
            assert(k == 0);
        }
        assert(digits.len() <= n);
        lemma_pow10_monotone(digits.len(), n as nat);
        assert(-pow10(n as nat) < value < pow10(n as nat));
        lemma_pow10_values();
    }
    let secs = match value.checked_div_euclid(scale) {
        Some(x) => x,
        None => return None,
    };
    let rem = match value.checked_rem_euclid(scale) {
        Some(x) => x,
        None => return None,
    };
    assert(0 <= rem < scale);
    assert(mult as int == 1_000_000_000int / (scale as int)) by {
        if scale == 1_000 {
            assert(1_000_000_000int / 1_000int == 1_000_000int) by (nonlinear_arith);
        } else if scale == 1_000_000 {
            assert(1_000_000_000int / 1_000_000int == 1_000int) by (nonlinear_arith);
        } else if scale == 1_000_000_000 {
            assert(1_000_000_000int / 1_000_000_000int == 1int) by (nonlinear_arith);
        }
    }
    assert(0 <= rem * mult < 1_000_000_000) by (nonlinear_arith)
        requires
            0 <= rem < scale,
            (scale == 1 && mult == 1_000_000_000) || (scale == 1_000 && mult == 1_000_000) || (
            scale == 1_000_000 && mult == 1_000) || (scale == 1_000_000_000 && mult == 1),
    ;
    let nanos: u32 = (rem * mult) as u32;
    assert(-1_000_000_000_000 <= secs <= 1_000_000_000_000);
    from_unix(secs, nanos)
}

proof fn lemma_pow10_values()
    ensures
        pow10(10) == 10_000_000_000,
        pow10(13) == 10_000_000_000_000,
        pow10(16) == 10_000_000_000_000_000,
{
    reveal_with_fuel(pow10, 17);
}

spec fn is_digit_at(s: Seq<char>, i: int) -> bool {
    0 <= i < s.len() && '0' <= s[i] <= '9'
}

proof fn lemma_pow10_monotone(a: nat, b: nat)
    requires
        a <= b,
    ensures
        1 <= pow10(a) <= pow10(b),
    decreases b,
{
    if b > 0 {
        if a < b {
            lemma_pow10_monotone(a, (b - 1) as nat);
        } else {
            lemma_pow10_monotone((a - 1) as nat, (b - 1) as nat);
        }
    }
}

/// The normalised text of a year-first timestamp.
fn normalize_exec(text: &Vec<char>) -> (r: Vec<char>)
    ensures
        r@ == normalize(text@),
{
    proof {
        reveal_strlit("UTC");
        reveal_strlit("GMT");
    }
    let utc = chars_of("UTC");
    let gmt = chars_of("GMT");
    let zero = chars_of("+0000");
    let space = chars_of(" ");
    let stop = chars_of(".");
    let a = replace_text_in(text, &utc, &zero);
    let b = replace_text_in(&a, &gmt, &zero);
    let c = replace_chars_in(&b, 'T', 't', &space);
    let d = replace_chars_in(&c, ',', ',', &stop);
    replace_chars_in(&d, 'Z', 'z', &zero)
}

/// Whether a zone-less timestamp is refused for the message that follows it.
fn refuses_exec(message: &Vec<char>, bracketed: bool) -> (b: bool)
    ensures
        b == refuses_zoneless(message@, bracketed),
{
    if bracketed {
        return false;
    }
    let k = count_leading_space(message, 0);
    assert(message@.skip(0) == message@);
    let ghost suffix = message@.skip(k as int);
    assert(suffix == trim_start(message@));
    if k < message.len() && 1 < message.len() - k && (message[k] == '+' || message[k] == '-') && is_digit_char(
        message[k + 1],
    ) {
        assert(suffix[0] == message@[k as int] && suffix[1] == message@[k + 1]);
        return true;
    }
    assert(!(suffix.len() > 1 && (suffix[0] == '+' || suffix[0] == '-') && '0' <= suffix[1] <= '9'));
    let e = first_word_end(message, k);
    spells(message, k, e, "EST") || spells(message, k, e, "EDT") || spells(message, k, e, "CST")
        || spells(message, k, e, "CDT") || spells(message, k, e, "MST") || spells(
        message,
        k,
        e,
        "MDT",
    ) || spells(message, k, e, "PST") || spells(message, k, e, "PDT") || spells(
        message,
        k,
        e,
        "CET",
    ) || spells(message, k, e, "CEST") || spells(message, k, e, "BST") || spells(
        message,
        k,
        e,
        "IST",
    )
}

fn offset_format_str(d: usize, z: usize) -> (f: &'static str)
    ensures
        f@ == offset_format(d as nat, z as nat),
{
    if d == 0 {
        if z == 0 {
            "%Y-%m-%d %H:%M:%S%.f%z"
        } else {
            "%Y-%m-%d %H:%M:%S%.f %z"
        }
    } else if d == 1 {
        if z == 0 {
            "%Y/%m/%d %H:%M:%S%.f%z"
        } else {
            "%Y/%m/%d %H:%M:%S%.f %z"
        }
    } else {
        if z == 0 {
            "%Y.%m.%d %H:%M:%S%.f%z"
        } else {
            "%Y.%m.%d %H:%M:%S%.f %z"
        }
    }
}

fn naive_format_str(d: usize) -> (f: &'static str)
    ensures
        f@ == naive_format(d as nat),
{
    if d == 0 {
        "%Y-%m-%d %H:%M:%S%.f"
    } else if d == 1 {
        "%Y/%m/%d %H:%M:%S%.f"
    } else {
        "%Y.%m.%d %H:%M:%S%.f"
    }
}

/// The instant of a normalised year-first timestamp.
fn year_first_exec(norm: &String, refuses: bool) -> (r: Option<Timestamp>)
    ensures
        r == year_first_instant(norm@, refuses, 0),
{
    let mut d: usize = 0;
    while d < 3
        invariant
            d <= 3,
            year_first_instant(norm@, refuses, 0) == year_first_instant(norm@, refuses, d as nat),
        decreases 3 - d,
    {
        if let Some(t) = parse_with_offset(norm.as_str(), offset_format_str(d, 0)) {
            return Some(t);
        }
        if let Some(t) = parse_with_offset(norm.as_str(), offset_format_str(d, 1)) {
            return Some(t);
        }
        if let Some(t) = parse_naive(norm.as_str(), naive_format_str(d)) {
            if refuses {
                return None;
            }
            return Some(t);
        }
        d += 1;
    }
    None
}

/// The instant of a timestamp text, as `instant_of` reads it.
fn instant_exec(text: &Vec<char>, message: &Vec<char>, bracketed: bool) -> (r: Option<Timestamp>)
    ensures
        r == instant_of(text@, message@, bracketed),
{
    let k = leading_minus(text);
    let mut j = k;
    while j < text.len() && is_digit_char(text[j])
        invariant
            k <= j <= text.len(),
            forall|i: int| k <= i < j ==> crate::text::is_digit(#[trigger] text@[i]),
        decreases text.len() - j,
    {
        j += 1;
    }
    if j == text.len() {
        assert(all_digits(trim_minus(text@))) by {
            assert forall|i: int| 0 <= i < trim_minus(text@).len() implies crate::text::is_digit(
                #[trigger] trim_minus(text@)[i],
            ) by {
                assert(trim_minus(text@)[i] == text@[k + i]);
            }
        }
        return epoch_exec(text);
    }
    assert(!all_digits(trim_minus(text@))) by {
        assert(trim_minus(text@)[j - k] == text@[j as int]);
    }
    let s = string_of(text, 0, text.len());
    assert(text@.subrange(0, text.len() as int) == text@);
    if let Some(t) = parse_rfc2822(s.as_str()) {
        return Some(t);
    }
    if let Some(t) = parse_with_offset(s.as_str(), "%d/%b/%Y:%H:%M:%S %z") {
        return Some(t);
    }
    let norm_chars = normalize_exec(text);
    let norm = string_of(&norm_chars, 0, norm_chars.len());
    assert(norm_chars@.subrange(0, norm_chars.len() as int) == norm_chars@);
    let refuses = refuses_exec(message, bracketed);
    year_first_exec(&norm, refuses)
}

/// The automatic selector's answer for a line.
pub fn select_auto<'a>(line: &'a str) -> (r: Option<SelectedTimestamp<'a>>)
    ensures
        answer_view(r) == auto_select(line@),
{
    let v = chars_of(line);
    let s0 = count_leading_space(&v, 0);
    assert(v@.skip(0) == v@);
    let ghost l1 = trim_start(v@);
    assert(l1 == v@.skip(s0 as int));
    let bracketed = s0 < v.len() && v[s0] == '[';
    let st = if bracketed {
        s0 + 1
    } else {
        s0
    };
    let l2 = sub_chars(&v, st, v.len());
    assert(l2@ == (if bracketed { l1.skip(1) } else { l1 }));
    let m = match find_timestamp_prefix(&l2, bracketed) {
        Some(m) => m,
        None => return None,
    };
    let text = sub_chars(&l2, 0, m);
    assert(text@ == l2@.take(m as int));
    let mut ms = m;
    if bracketed {
        if m < l2.len() && l2[m] == ']' {
            ms = m + 1;
        } else {
            return None;
        }
    }
    let message = sub_chars(&l2, ms, l2.len());
    assert(message@ == (if bracketed { l2@.skip(m as int).skip(1) } else { l2@.skip(m as int) }));
    if ms < l2.len() && !is_space_char(l2[ms]) {
        assert(message@[0] == l2@[ms as int]);
        return None;
    }
    let t = match instant_exec(&text, &message, bracketed) {
        Some(t) => t,
        None => return None,
    };
    let k = count_leading_space(&message, 0);
    assert(message@.skip(0) == message@);
    assert(message@.subrange(k as int, message.len() as int) == trim_start(message@));
    assert(line@.subrange((st + ms + k) as int, v.len() as int) == message@.subrange(
        k as int,
        message.len() as int,
    ));
    let body = line.substring_char(st + ms + k, v.len());
    Some(SelectedTimestamp { timestamp: t, message: body })
}

proof fn lemma_leading_space_fits(s: Seq<char>)
    ensures
        crate::text::leading_space(s) <= s.len(),
    decreases s.len(),
{
    if s.len() > 0 && is_space(s[0]) {
        lemma_leading_space_fits(s.skip(1));
    }
}

proof fn lemma_trim_start_first(s: Seq<char>)
    ensures
        trim_start(s).len() > 0 ==> !is_space(trim_start(s)[0]),
        trim_start(s).len() <= s.len(),
    decreases s.len(),
{
    lemma_leading_space_fits(s);
    if s.len() > 0 && is_space(s[0]) {
        lemma_trim_start_first(s.skip(1));
        let k = crate::text::leading_space(s.skip(1)) as int;
        lemma_leading_space_fits(s.skip(1));
        assert(crate::text::leading_space(s) == 1 + k);
        assert(s.skip(1).skip(k) =~= s.skip(1 + k));
    } else {
        assert(s.skip(0) == s);
    }
}

/// A selected message never begins with whitespace.
pub proof fn lemma_selected_message_trimmed(line: Seq<char>)
    ensures
        auto_select(line) matches Some((t, m)) ==> m.len() == 0 || !is_space(m[0]),
{
    let l1 = trim_start(line);
    lemma_trim_start_first(line);
    let bracketed = l1.len() > 0 && l1[0] == '[';
    let l2 = if bracketed {
        l1.skip(1)
    } else {
        l1
    };
    if let Some(m) = timestamp_prefix(l2, bracketed) {
        let rest = l2.skip(m as int);
        if !(bracketed && !(rest.len() > 0 && rest[0] == ']')) {
            let message = if bracketed {
                rest.skip(1)
            } else {
                rest
            };
            lemma_trim_start_first(message);
        }
    }
}

/// A Unix timestamp keeps its exact value: the seconds times the unit plus the
/// sub-second part in that unit give back the number read, and the nanoseconds
/// stay below one second.
pub proof fn lemma_epoch_exact(text: Seq<char>)
    ensures
        epoch_instant(text) matches Some(t) ==> {
            let scale = epoch_scale(trim_minus(text).len())->0;
            let value = parse_i64(text)->0;
            &&& t.nanos < 1_000_000_000
            &&& t.secs * scale + (t.nanos as int) / (1_000_000_000int / scale) == value
        },
{
    if let Some(t) = epoch_instant(text) {
        let scale = epoch_scale(trim_minus(text).len())->0;
        let value = parse_i64(text)->0 as int;
        let q = value / scale;
        let r = value % scale;
        let f = 1_000_000_000int / scale;
        assert(f == 1_000_000_000int / scale);
        assert(scale == 1 || scale == 1_000 || scale == 1_000_000 || scale == 1_000_000_000);
        assert(value == q * scale + r && 0 <= r < scale) by (nonlinear_arith)
            requires scale > 0, q == value / scale, r == value % scale;
        assert(i64::MIN <= q <= i64::MAX) by (nonlinear_arith)
            requires scale >= 1, value == q * scale + r, 0 <= r < scale, i64::MIN <= value <= i64::MAX;
        assert(f == 1_000_000_000int / scale && ((scale == 1 && f == 1_000_000_000) || (scale == 1_000 && f == 1_000_000) || (scale
                    == 1_000_000 && f == 1_000) || (scale == 1_000_000_000 && f == 1))) by {
            if scale == 1 {
                assert(1_000_000_000int / 1int == 1_000_000_000int) by (nonlinear_arith);
            } else if scale == 1_000 {
                assert(1_000_000_000int / 1_000int == 1_000_000int) by (nonlinear_arith);
            } else if scale == 1_000_000 {
                assert(1_000_000_000int / 1_000_000int == 1_000int) by (nonlinear_arith);
            } else if scale == 1_000_000_000 {
                assert(1_000_000_000int / 1_000_000_000int == 1int) by (nonlinear_arith);
            }
        }
        assert(f * scale == 1_000_000_000 && (r * f) / f == r && r * f < 1_000_000_000) by (nonlinear_arith)
            requires
                0 <= r < scale,
                (scale == 1 && f == 1_000_000_000) || (scale == 1_000 && f == 1_000_000) || (scale
                    == 1_000_000 && f == 1_000) || (scale == 1_000_000_000 && f == 1),
        {
        }
    }
}

impl TimestampSelector for AutoTimestampSelector {
    fn select<'a>(&mut self, line: &'a str) -> (r: Option<SelectedTimestamp<'a>>)
        ensures
            answer_view(r) == auto_select(line@),
    {
        select_auto(line)
    }
}

} // verus!
