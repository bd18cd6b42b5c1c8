//! Character classes and text operations on sequences of characters, each
//! with the meaning that std gives the operation of the same name.
use vstd::prelude::*;

verus! {

/// `char::is_ascii_digit`.
pub open spec fn is_digit(c: char) -> bool {
    '0' <= c && c <= '9'
}

/// `char::is_whitespace`: the Unicode `White_Space` property.
pub open spec fn is_space(c: char) -> bool {
    let u = c as u32;
    ||| 0x09 <= u <= 0x0D
    ||| u == 0x20
    ||| u == 0x85
    ||| u == 0xA0
    ||| u == 0x1680
    ||| 0x2000 <= u <= 0x200A
    ||| u == 0x2028
    ||| u == 0x2029
    ||| u == 0x202F
    ||| u == 0x205F
    ||| u == 0x3000
}

/// `char::is_control`: the Unicode general category `Cc`.
pub open spec fn is_control(c: char) -> bool {
    let u = c as u32;
    u <= 0x1F || (0x7F <= u <= 0x9F)
}

/// The value of an ASCII digit.
pub open spec fn digit_value(c: char) -> int {
    (c as u32) - ('0' as u32)
}

pub fn is_digit_char(c: char) -> (b: bool)
    ensures
        b == is_digit(c),
{
    '0' <= c && c <= '9'
}

pub fn is_space_char(c: char) -> (b: bool)
    ensures
        b == is_space(c),
{
    let u = c as u32;
    (0x09 <= u && u <= 0x0D) || u == 0x20 || u == 0x85 || u == 0xA0 || u == 0x1680 || (0x2000
        <= u && u <= 0x200A) || u == 0x2028 || u == 0x2029 || u == 0x202F || u == 0x205F || u
        == 0x3000
}

pub fn is_control_char(c: char) -> (b: bool)
    ensures
        b == is_control(c),
{
    let u = c as u32;
    u <= 0x1F || (0x7F <= u && u <= 0x9F)
}

/// `s` begins with `p`.
pub open spec fn starts_with(s: Seq<char>, p: Seq<char>) -> bool {
    p.len() <= s.len() && s.take(p.len() as int) == p
}

/// How many whitespace characters `s` begins with.
pub open spec fn leading_space(s: Seq<char>) -> nat
    decreases s.len(),
{
    if s.len() > 0 && is_space(s[0]) {
        1 + leading_space(s.skip(1))
    } else {
        0
    }
}

/// `str::trim_start`.
pub open spec fn trim_start(s: Seq<char>) -> Seq<char> {
    s.skip(leading_space(s) as int)
}

/// The characters of `s` before the first whitespace character: the first item
/// of `split_whitespace` when `s` does not begin with whitespace.
pub open spec fn first_word(s: Seq<char>) -> Seq<char>
    decreases s.len(),
{
    if s.len() == 0 || is_space(s[0]) {
        Seq::empty()
    } else {
        seq![s[0]] + first_word(s.skip(1))
    }
}

/// The position of the first `c` in `s`, or the length of `s` when there is none.
pub open spec fn find_char(s: Seq<char>, c: char) -> nat
    decreases s.len(),
{
    if s.len() == 0 {
        0
    } else if s[0] == c {
        0
    } else {
        1 + find_char(s.skip(1), c)
    }
}

/// A line without the carriage return that ended it.
pub open spec fn strip_cr(s: Seq<char>) -> Seq<char> {
    if s.len() > 0 && s.last() == '\r' {
        s.drop_last()
    } else {
        s
    }
}

/// `str::lines`: the pieces between newlines, each without a `\r` before its
/// newline; a final newline does not start another line.
pub open spec fn lines(s: Seq<char>) -> Seq<Seq<char>>
    decreases s.len(),
{
    if s.len() == 0 {
        Seq::empty()
    } else {
        let k = find_char(s, '\n');
        if k >= s.len() {
            seq![s]
        } else {
            seq![strip_cr(s.take(k as int))] + lines(s.skip(k + 1 as int))
        }
    }
}

/// `str::replace` with a single-character pattern `a` or `b` (the same character
/// twice for one).
pub open spec fn replace_chars(s: Seq<char>, a: char, b: char, rep: Seq<char>) -> Seq<char>
    decreases s.len(),
{
    if s.len() == 0 {
        s
    } else {
        (if s[0] == a || s[0] == b {
            rep
        } else {
            seq![s[0]]
        }) + replace_chars(s.skip(1), a, b, rep)
    }
}

/// `str::replace` with a non-empty text pattern: occurrences taken from the left,
/// without overlap.
pub open spec fn replace_text(s: Seq<char>, pat: Seq<char>, rep: Seq<char>) -> Seq<char>
    recommends
        pat.len() > 0,
    decreases s.len(),
{
    if s.len() == 0 || pat.len() == 0 {
        s
    } else if starts_with(s, pat) {
        rep + replace_text(s.skip(pat.len() as int), pat, rep)
    } else {
        seq![s[0]] + replace_text(s.skip(1), pat, rep)
    }
}

/// The decimal value of a sequence of ASCII digits.
pub open spec fn digits_value(s: Seq<char>) -> int
    decreases s.len(),
{
    if s.len() == 0 {
        0
    } else {
        digits_value(s.drop_last()) * 10 + digit_value(s.last())
    }
}

pub open spec fn all_digits(s: Seq<char>) -> bool {
    forall|i: int| 0 <= i < s.len() ==> is_digit(#[trigger] s[i])
}

/// `str::parse::<i64>`: an optional sign, then at least one ASCII digit, and a
/// value that fits.
pub open spec fn parse_i64(s: Seq<char>) -> Option<i64> {
    let negative = s.len() > 0 && s[0] == '-';
    let signed = s.len() > 0 && (s[0] == '-' || s[0] == '+');
    let digits = if signed {
        s.skip(1)
    } else {
        s
    };
    let value = if negative {
        -digits_value(digits)
    } else {
        digits_value(digits)
    };
    if digits.len() > 0 && all_digits(digits) && i64::MIN <= value <= i64::MAX {
        Some(value as i64)
    } else {
        None
    }
}

/// The decimal text of a natural number, as `to_string` prints it.
pub open spec fn decimal_text(n: nat) -> Seq<char>
    decreases n,
{
    if n < 10 {
        seq![digit_char(n)]
    } else {
        decimal_text(n / 10) + seq![digit_char(n % 10)]
    }
}

pub open spec fn digit_char(d: nat) -> char {
    if d == 0 {
        '0'
    } else if d == 1 {
        '1'
    } else if d == 2 {
        '2'
    } else if d == 3 {
        '3'
    } else if d == 4 {
        '4'
    } else if d == 5 {
        '5'
    } else if d == 6 {
        '6'
    } else if d == 7 {
        '7'
    } else if d == 8 {
        '8'
    } else {
        '9'
    }
}

/// Calls `String::push`. Trusted: the character is appended.
#[verifier::external_body]
pub(crate) fn push_char(s: &mut String, c: char)
    ensures
        final(s)@ == old(s)@.push(c),
{
    s.push(c);
}

/// The characters of a text.
pub fn chars_of(s: &str) -> (v: Vec<char>)
    ensures
        v@ == s@,
{
    broadcast use vstd::string::group_string_axioms;
    let mut v: Vec<char> = Vec::new();
    for c in it: s.chars()
        invariant
            it.seq() == s@,
            v@ == s@.take(it.index() as int),
    {
        v.push(c);
    }
    v
}

/// The text of a run of characters.
pub fn string_of(v: &Vec<char>, from: usize, to: usize) -> (s: String)
    requires
        from <= to <= v.len(),
    ensures
        s@ == v@.subrange(from as int, to as int),
{
    let mut s = String::new();
    let mut i = from;
    while i < to
        invariant
            from <= i <= to <= v.len(),
            s@ == v@.subrange(from as int, i as int),
        decreases to - i,
    {
        push_char(&mut s, v[i]);
        assert(v@.subrange(from as int, i + 1) == v@.subrange(from as int, i as int).push(v@[i as int]));
        i += 1;
    }
    s
}

/// The number of whitespace characters at position `from` and after.
pub fn count_leading_space(v: &Vec<char>, from: usize) -> (n: usize)
    requires
        from <= v.len(),
    ensures
        n == leading_space(v@.skip(from as int)),
        from + n <= v.len(),
{
    let mut i = from;
    while i < v.len() && is_space_char(v[i])
        invariant
            from <= i <= v.len(),
            leading_space(v@.skip(from as int)) == (i - from) + leading_space(v@.skip(i as int)),
        decreases v.len() - i,
    {
        assert(v@.skip(i as int).skip(1) == v@.skip(i + 1));
        i += 1;
    }
    i - from
}

/// `str::lines` on the characters of a text.
pub fn split_lines(v: &Vec<char>) -> (out: Vec<Vec<char>>)
    ensures
        out@.len() == lines(v@).len(),
        forall|k: int| 0 <= k < out@.len() ==> #[trigger] out@[k]@ == lines(v@)[k],
{
    let mut out: Vec<Vec<char>> = Vec::new();
    let mut cur: Vec<char> = Vec::new();
    let mut start: usize = 0;
    let mut i: usize = 0;
    let ghost mut done: Seq<Seq<char>> = Seq::empty();
    assert(v@.skip(0) == v@);
    while i < v.len()
        invariant
            start <= i <= v.len(),
            cur@ == v@.subrange(start as int, i as int),
            forall|j: int| start <= j < i ==> v@[j] != '\n',
            out@.len() == done.len(),
            forall|k: int| 0 <= k < out@.len() ==> #[trigger] out@[k]@ == done[k],
            lines(v@) == done + lines(v@.skip(start as int)),
        decreases v.len() - i,
    {
        let c = v[i];
        if c == '\n' {
            proof {
                lemma_find_char_at(v@.skip(start as int), '\n', (i - start) as nat);
                assert(v@.skip(start as int).take(i - start) == cur@);
                assert(v@.skip(start as int).skip(i - start + 1) == v@.skip(i + 1));
            }
            let line = if cur.len() > 0 && cur[cur.len() - 1] == '\r' {
                let mut t = cur.clone();
                t.pop();
                t
            } else {
                cur.clone()
            };
            proof {
                done = done.push(strip_cr(cur@));
            }
            out.push(line);
            cur = Vec::new();
            i += 1;
            start = i;
        } else {
            cur.push(c);
            i += 1;
        }
    }
    if start < v.len() {
        proof {
            lemma_find_char_absent(v@.skip(start as int), '\n');
            assert(v@.skip(start as int) == cur@);
            done = done.push(cur@);
        }
        out.push(cur);
    } else {
        assert(v@.skip(start as int).len() == 0);
    }
    proof {
        assert(lines(v@) == done);
    }
    out
}

proof fn lemma_find_char_at(s: Seq<char>, c: char, k: nat)
    requires
        k < s.len(),
        s[k as int] == c,
        forall|j: int| 0 <= j < k ==> s[j] != c,
    ensures
        find_char(s, c) == k,
    decreases k,
{
    if k > 0 {
        lemma_find_char_at(s.skip(1), c, (k - 1) as nat);
    }
}

proof fn lemma_find_char_absent(s: Seq<char>, c: char)
    requires
        forall|j: int| 0 <= j < s.len() ==> s[j] != c,
    ensures
        find_char(s, c) == s.len(),
    decreases s.len(),
{
    if s.len() > 0 {
        lemma_find_char_absent(s.skip(1), c);
    }
}

/// `str::replace` with the single-character pattern `a` or `b`.
pub fn replace_chars_in(v: &Vec<char>, a: char, b: char, rep: &Vec<char>) -> (out: Vec<char>)
    ensures
        out@ == replace_chars(v@, a, b, rep@),
{
    let mut out: Vec<char> = Vec::new();
    let mut i: usize = 0;
    assert(v@.skip(0) == v@);
    while i < v.len()
        invariant
            i <= v.len(),
            replace_chars(v@, a, b, rep@) == out@ + replace_chars(v@.skip(i as int), a, b, rep@),
        decreases v.len() - i,
    {
        assert(v@.skip(i as int).skip(1) == v@.skip(i + 1));
        let c = v[i];
        if c == a || c == b {
            let mut j: usize = 0;
            let ghost before = out@;
            while j < rep.len()
                invariant
                    j <= rep.len(),
                    out@ == before + rep@.take(j as int),
                decreases rep.len() - j,
            {
                out.push(rep[j]);
                assert(rep@.take(j + 1) == rep@.take(j as int).push(rep@[j as int]));
                j += 1;
            }
            assert(rep@.take(rep.len() as int) == rep@);
        } else {
            out.push(c);
        }
        i += 1;
    }
    assert(v@.skip(v.len() as int).len() == 0);
    out
}

/// Whether `p` occurs in `v` at position `at`.
pub fn occurs_at(v: &Vec<char>, at: usize, p: &Vec<char>) -> (b: bool)
    requires
        at <= v.len(),
    ensures
        b == starts_with(v@.skip(at as int), p@),
{
    if p.len() > v.len() - at {
        return false;
    }
    let mut j: usize = 0;
    while j < p.len()
        invariant
            j <= p.len(),
            at + p.len() <= v.len(),
            forall|k: int| 0 <= k < j ==> v@[at + k] == p@[k],
        decreases p.len() - j,
    {
        if v[at + j] != p[j] {
            assert(v@.skip(at as int).take(p.len() as int)[j as int] != p@[j as int]);
            return false;
        }
        j += 1;
    }
    assert(v@.skip(at as int).take(p.len() as int) == p@);
    true
}

/// `str::replace` with a non-empty text pattern.
pub fn replace_text_in(v: &Vec<char>, pat: &Vec<char>, rep: &Vec<char>) -> (out: Vec<char>)
    requires
        pat.len() > 0,
    ensures
        out@ == replace_text(v@, pat@, rep@),
{
    let mut out: Vec<char> = Vec::new();
    let mut i: usize = 0;
    assert(v@.skip(0) == v@);
    while i < v.len()
        invariant
            i <= v.len(),
            pat.len() > 0,
            replace_text(v@, pat@, rep@) == out@ + replace_text(v@.skip(i as int), pat@, rep@),
        decreases v.len() - i,
    {
        if occurs_at(v, i, pat) {
            let mut j: usize = 0;
            let ghost before = out@;
            while j < rep.len()
                invariant
                    j <= rep.len(),
                    out@ == before + rep@.take(j as int),
                decreases rep.len() - j,
            {
                out.push(rep[j]);
                assert(rep@.take(j + 1) == rep@.take(j as int).push(rep@[j as int]));
                j += 1;
            }
            assert(rep@.take(rep.len() as int) == rep@);
            assert(v@.skip(i as int).skip(pat.len() as int) == v@.skip(i + pat.len()));
            i += pat.len();
        } else {
            assert(v@.skip(i as int).skip(1) == v@.skip(i + 1));
            out.push(v[i]);
            i += 1;
        }
    }
    assert(v@.skip(v.len() as int).len() == 0);
    out
}

/// Appends the decimal text of `n`.
pub fn push_decimal(out: &mut Vec<char>, n: usize)
    ensures
        final(out)@ == old(out)@ + decimal_text(n as nat),
    decreases n,
{
    if n >= 10 {
        push_decimal(out, n / 10);
    }
    let d = n % 10;
    let c = if d == 0 {
        '0'
    } else if d == 1 {
        '1'
    } else if d == 2 {
        '2'
    } else if d == 3 {
        '3'
    } else if d == 4 {
        '4'
    } else if d == 5 {
        '5'
    } else if d == 6 {
        '6'
    } else if d == 7 {
        '7'
    } else if d == 8 {
        '8'
    } else {
        '9'
    };
    out.push(c);
}

/// Appends the characters of a text.
pub fn push_str(out: &mut Vec<char>, s: &str)
    ensures
        final(out)@ == old(out)@ + s@,
{
    let v = chars_of(s);
    let ghost before = out@;
    let mut j: usize = 0;
    while j < v.len()
        invariant
            j <= v.len(),
            out@ == before + v@.take(j as int),
        decreases v.len() - j,
    {
        out.push(v[j]);
        assert(v@.take(j + 1) == v@.take(j as int).push(v@[j as int]));
        j += 1;
    }
    assert(v@.take(v.len() as int) == v@);
}

proof fn lemma_digits_value_nonneg(s: Seq<char>)
    requires
        all_digits(s),
    ensures
        digits_value(s) >= 0,
    decreases s.len(),
{
    if s.len() > 0 {
        assert(all_digits(s.drop_last()));
        lemma_digits_value_nonneg(s.drop_last());
        assert(is_digit(s[s.len() - 1]));
    }
}

proof fn lemma_digits_value_prefix(s: Seq<char>, k: int)
    requires
        all_digits(s),
        0 <= k <= s.len(),
    ensures
        digits_value(s) >= digits_value(s.take(k)),
    decreases s.len(),
{
    if k < s.len() {
        assert(all_digits(s.drop_last()));
        assert(s.drop_last().take(k) == s.take(k));
        lemma_digits_value_prefix(s.drop_last(), k);
        lemma_digits_value_nonneg(s.drop_last());
        assert(is_digit(s[s.len() - 1]));
    } else {
        assert(s.take(k) == s);
    }
}

/// `str::parse::<i64>` on the characters of a text.
pub fn parse_int(v: &Vec<char>) -> (r: Option<i64>)
    ensures
        r == parse_i64(v@),
{
    let negative = v.len() > 0 && v[0] == '-';
    let signed = v.len() > 0 && (v[0] == '-' || v[0] == '+');
    let start: usize = if signed { 1 } else { 0 };
    let ghost digits = v@.skip(start as int);
    assert(v@.skip(0) == v@);
    assert(digits == (if signed { v@.skip(1) } else { v@ }));
    if v.len() <= start {
        return None;
    }
    let limit: u64 = if negative { 9223372036854775808 } else { 9223372036854775807 };
    let mut mag: u64 = 0;
    let mut i: usize = start;
    while i < v.len()
        invariant
            start <= i <= v.len(),
            start < v.len(),
            negative == (v@.len() > 0 && v@[0] == '-'),
            signed == (v@.len() > 0 && (v@[0] == '-' || v@[0] == '+')),
            start == (if signed { 1int } else { 0int }),
            limit == (if negative { 9223372036854775808u64 } else { 9223372036854775807u64 }),
            digits == v@.skip(start as int),
            digits == (if signed { v@.skip(1) } else { v@ }),
            all_digits(digits.take(i - start)),
            mag as int == digits_value(digits.take(i - start)),
            mag <= limit,
        decreases v.len() - i,
    {
        let c = v[i];
        if !is_digit_char(c) {
            assert(digits[i - start] == c);
            return None;
        }
        assert(48 <= c as u32 <= 57);
        let d: u64 = (c as u32 - 48) as u64;
        assert(d as int == digit_value(c));
        assert(digits.take(i - start + 1).drop_last() == digits.take(i - start));
        assert(all_digits(digits.take(i - start + 1)));
        assert(digits.take(i - start + 1).last() == c);
        assert(digits_value(digits.take(i - start + 1)) == mag * 10 + d);
        if mag > (limit - d) / 10 {
            proof {
                assert(mag * 10 + d > limit) by (nonlinear_arith)
                    requires mag > (limit - d) / 10, d <= 9, limit >= 9;
                if all_digits(digits) {
                    lemma_digits_value_prefix(digits, i - start + 1);
                    assert(digits_value(digits) > limit);
                    if negative {
                        assert(-digits_value(digits) < i64::MIN);
                    } else {
                        assert(digits_value(digits) > i64::MAX);
                    }
                }
            }
            return None;
        }
        mag = mag * 10 + d;
        i += 1;
    }
    assert(digits.take(i - start) == digits);
    assert(digits.len() > 0);
    assert(mag as int == digits_value(digits));
    if negative {
        if mag == 9223372036854775808 {
            Some(-9223372036854775807i64 - 1)
        } else {
            Some(-(mag as i64))
        }
    } else {
        Some(mag as i64)
    }
}

/// A copy of the characters from `from` to `to`.
pub fn sub_chars(v: &Vec<char>, from: usize, to: usize) -> (r: Vec<char>)
    requires
        from <= to <= v.len(),
    ensures
        r@ == v@.subrange(from as int, to as int),
{
    let mut r: Vec<char> = Vec::new();
    let mut i = from;
    while i < to
        invariant
            from <= i <= to <= v.len(),
            r@ == v@.subrange(from as int, i as int),
        decreases to - i,
    {
        r.push(v[i]);
        assert(v@.subrange(from as int, i + 1) == v@.subrange(from as int, i as int).push(v@[i as int]));
        i += 1;
    }
    r
}

/// Whether the characters from `from` to `to` spell `lit`.
pub fn spells(v: &Vec<char>, from: usize, to: usize, lit: &str) -> (b: bool)
    requires
        from <= to <= v.len(),
    ensures
        b == (v@.subrange(from as int, to as int) == lit@),
{
    let w = chars_of(lit);
    if w.len() != to - from {
        return false;
    }
    let mut j: usize = 0;
    while j < w.len()
        invariant
            j <= w.len(),
            w.len() == to - from,
            from <= to <= v.len(),
            w@ == lit@,
            forall|k: int| 0 <= k < j ==> v@[from + k] == w@[k],
        decreases w.len() - j,
    {
        if v[from + j] != w[j] {
            assert(v@.subrange(from as int, to as int)[j as int] != lit@[j as int]);
            return false;
        }
        j += 1;
    }
    assert(v@.subrange(from as int, to as int) == lit@);
    true
}

/// The end of the first word at position `from` (which must not be whitespace
/// for the word to be non-empty).
pub fn first_word_end(v: &Vec<char>, from: usize) -> (e: usize)
    requires
        from <= v.len(),
    ensures
        from <= e <= v.len(),
        v@.subrange(from as int, e as int) == first_word(v@.skip(from as int)),
{
    let mut e = from;
    while e < v.len() && !is_space_char(v[e])
        invariant
            from <= e <= v.len(),
            first_word(v@.skip(from as int)) == v@.subrange(from as int, e as int) + first_word(
                v@.skip(e as int),
            ),
        decreases v.len() - e,
    {
        assert(v@.skip(e as int).skip(1) == v@.skip(e + 1));
        assert(v@.subrange(from as int, e + 1) == v@.subrange(from as int, e as int) + seq![v@[e as int]]);
        e += 1;
    }
    e
}

pub open spec fn pow10(n: nat) -> int
    decreases n,
{
    if n == 0 {
        1
    } else {
        10 * pow10((n - 1) as nat)
    }
}

pub proof fn lemma_digits_value_bound(s: Seq<char>)
    requires
        all_digits(s),
    ensures
        0 <= digits_value(s) < pow10(s.len()),
    decreases s.len(),
{
    if s.len() > 0 {
        assert(all_digits(s.drop_last()));
        lemma_digits_value_bound(s.drop_last());
        assert(is_digit(s[s.len() - 1]));
        let a = digits_value(s.drop_last());
        let p = pow10((s.len() - 1) as nat);
        let d = digit_value(s.last());
        assert(0 <= d <= 9);
        assert(a * 10 + d < p * 10) by (nonlinear_arith)
            requires 0 <= a < p, 0 <= d <= 9;
        assert(a * 10 + d >= 0) by (nonlinear_arith)
            requires 0 <= a, 0 <= d;
    }
}

/// Appends the characters of `v` to a text.
pub fn append_chars(s: &mut String, v: &Vec<char>)
    ensures
        final(s)@ == old(s)@ + v@,
{
    let ghost before = s@;
    let mut j: usize = 0;
    while j < v.len()
        invariant
            j <= v.len(),
            s@ == before + v@.take(j as int),
        decreases v.len() - j,
    {
        push_char(s, v[j]);
        assert(v@.take(j + 1) == v@.take(j as int).push(v@[j as int]));
        j += 1;
    }
    assert(v@.take(v.len() as int) == v@);
}

} // verus!
