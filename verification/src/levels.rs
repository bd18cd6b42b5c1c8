//! The log levels that the viewer highlights.
use vstd::prelude::*;

use crate::text::{chars_of, first_word, first_word_end, is_space, is_space_char, spells};

verus! {

/// A log level: `ERROR`, `FATAL` and `PANIC` are errors, `WARN` and `WARNING`
/// warnings, then `INFO`, `DEBUG` and `TRACE`.
#[derive(Clone, Copy, Debug, PartialEq, Eq, Structural)]
pub enum Level {
    Error,
    Warn,
    Info,
    Debug,
    Trace,
}

/// The level a word names, if any.
pub open spec fn level_of(w: Seq<char>) -> Option<Level> {
    if w == "ERROR"@ || w == "FATAL"@ || w == "PANIC"@ {
        Some(Level::Error)
    } else if w == "WARN"@ || w == "WARNING"@ {
        Some(Level::Warn)
    } else if w == "INFO"@ {
        Some(Level::Info)
    } else if w == "DEBUG"@ {
        Some(Level::Debug)
    } else if w == "TRACE"@ {
        Some(Level::Trace)
    } else {
        None
    }
}

/// A word of a line, by character positions, that names a level.
pub struct Highlight {
    pub start: usize,
    pub end: usize,
    pub level: Level,
}

/// The words from position `i` on that name a level, in order: words are the
/// maximal runs without whitespace.
pub open spec fn level_words(s: Seq<char>, i: int) -> Seq<(int, int, Level)>
    decreases s.len() - i, 1int,
{
    if i >= s.len() {
        Seq::empty()
    } else if is_space(s[i]) {
        level_words(s, i + 1)
    } else {
        let e = i + first_word(s.skip(i)).len();
        words_after(s, i, e)
    }
}

/// The level words of `s` given a word from `i` to `e`, then those after it.
pub open spec fn words_after(s: Seq<char>, i: int, e: int) -> Seq<(int, int, Level)>
    decreases s.len() - i, 0int,
{
    if i < e <= s.len() {
        let rest = level_words(s, e);
        match level_of(s.subrange(i, e)) {
            Some(l) => seq![(i, e, l)] + rest,
            None => rest,
        }
    } else {
        Seq::empty()
    }
}

/// The documented level words with their levels: `ERROR`, `FATAL` and `PANIC`
/// are errors, `WARN` and `WARNING` warnings, `INFO`, `DEBUG` and `TRACE` their
/// own levels.
pub open spec fn documented_level_word(w: Seq<char>, l: Level) -> bool {
    ||| w == seq!['E', 'R', 'R', 'O', 'R'] && l == Level::Error
    ||| w == seq!['F', 'A', 'T', 'A', 'L'] && l == Level::Error
    ||| w == seq!['P', 'A', 'N', 'I', 'C'] && l == Level::Error
    ||| w == seq!['W', 'A', 'R', 'N'] && l == Level::Warn
    ||| w == seq!['W', 'A', 'R', 'N', 'I', 'N', 'G'] && l == Level::Warn
    ||| w == seq!['I', 'N', 'F', 'O'] && l == Level::Info
    ||| w == seq!['D', 'E', 'B', 'U', 'G'] && l == Level::Debug
    ||| w == seq!['T', 'R', 'A', 'C', 'E'] && l == Level::Trace
}

proof fn lemma_documented_words(w: Seq<char>, l: Level)
    requires
        documented_level_word(w, l),
    ensures
        level_of(w) == Some(l),
        w.len() > 0,
        forall|k: int| 0 <= k < w.len() ==> !is_space(#[trigger] w[k]),
{
    reveal_strlit("ERROR");
    reveal_strlit("FATAL");
    reveal_strlit("PANIC");
    reveal_strlit("WARN");
    reveal_strlit("WARNING");
    reveal_strlit("INFO");
    reveal_strlit("DEBUG");
    reveal_strlit("TRACE");
    assert(w == seq!['E', 'R', 'R', 'O', 'R'] ==> w == "ERROR"@);
    assert(w == seq!['F', 'A', 'T', 'A', 'L'] ==> w == "FATAL"@);
    assert(w == seq!['P', 'A', 'N', 'I', 'C'] ==> w == "PANIC"@);
    assert(w == seq!['W', 'A', 'R', 'N'] ==> w == "WARN"@);
    assert(w == seq!['W', 'A', 'R', 'N', 'I', 'N', 'G'] ==> w == "WARNING"@);
    assert(w == seq!['I', 'N', 'F', 'O'] ==> w == "INFO"@);
    assert(w == seq!['D', 'E', 'B', 'U', 'G'] ==> w == "DEBUG"@);
    assert(w == seq!['T', 'R', 'A', 'C', 'E'] ==> w == "TRACE"@);
}

/// The first word of `t` is `w` when `t` opens with `w`, `w` holds no
/// whitespace, and whitespace or the end follows it.
proof fn lemma_first_word_is(t: Seq<char>, w: Seq<char>)
    requires
        w.len() <= t.len(),
        t.take(w.len() as int) == w,
        forall|k: int| 0 <= k < w.len() ==> !is_space(#[trigger] w[k]),
        t.len() == w.len() || is_space(t[w.len() as int]),
    ensures
        first_word(t) == w,
    decreases w.len(),
{
    if w.len() > 0 {
        assert(t[0] == w[0]);
        let t1 = t.skip(1);
        let w1 = w.skip(1);
        assert(t1.take(w1.len() as int) =~= w1);
        assert forall|k: int| 0 <= k < w1.len() implies !is_space(#[trigger] w1[k]) by {
            assert(w1[k] == w[k + 1]);
        }
        lemma_first_word_is(t1, w1);
        assert(first_word(t) =~= seq![t[0]] + w1);
    }
}

/// The first word of `t` ends no later than its first whitespace.
proof fn lemma_first_word_stops(t: Seq<char>, p: int)
    requires
        0 <= p < t.len(),
        is_space(t[p]),
    ensures
        first_word(t).len() <= p,
    decreases p,
{
    if p > 0 && !is_space(t[0]) {
        lemma_first_word_stops(t.skip(1), p - 1);
    }
}

/// Every documented level word that stands as a whole word of a line, wherever
/// it stands, is among the highlights, with its level: `ERROR`, `FATAL` and
/// `PANIC` as errors, `WARN` and `WARNING` as warnings, `INFO`, `DEBUG` and
/// `TRACE` as their own levels.
pub proof fn lemma_level_words_found(s: Seq<char>, i: int, w: Seq<char>, l: Level)
    requires
        documented_level_word(w, l),
        0 <= i,
        i + w.len() <= s.len(),
        s.subrange(i, i + w.len()) == w,
        i == 0 || is_space(s[i - 1]),
        i + w.len() == s.len() || is_space(s[i + w.len()]),
    ensures
        level_words(s, 0).contains((i, i + w.len(), l)),
{
    lemma_documented_words(w, l);
    lemma_level_words_from(s, 0, i, w, l);
}

proof fn lemma_level_words_from(s: Seq<char>, j: int, i: int, w: Seq<char>, l: Level)
    requires
        level_of(w) == Some(l),
        w.len() > 0,
        forall|k: int| 0 <= k < w.len() ==> !is_space(#[trigger] w[k]),
        0 <= j <= i,
        i + w.len() <= s.len(),
        s.subrange(i, i + w.len()) == w,
        j == i || is_space(s[i - 1]),
        i + w.len() == s.len() || is_space(s[i + w.len()]),
    ensures
        level_words(s, j).contains((i, i + w.len(), l)),
    decreases i - j,
{
    let e = j + first_word(s.skip(j)).len();
    if j == i {
        assert(s[i] == w[0]);
        assert(!is_space(s[j]));
        assert(s.skip(j).take(w.len() as int) =~= s.subrange(i, i + w.len()));
        lemma_first_word_is(s.skip(j), w);
        assert(e == i + w.len());
        assert(level_words(s, j) == words_after(s, j, e));
        assert(s.subrange(j, e) == w);
        assert(words_after(s, j, e) == seq![(i, i + w.len(), l)] + level_words(s, e));
        assert(level_words(s, j)[0] == (i, i + w.len(), l));
    } else if is_space(s[j]) {
        lemma_level_words_from(s, j + 1, i, w, l);
    } else {
        lemma_first_word_stops(s.skip(j), i - 1 - j);
        assert(first_word(s.skip(j)).len() > 0);
        assert(j < e <= i);
        lemma_level_words_from(s, e, i, w, l);
        assert(level_words(s, j) == words_after(s, j, e));
        let rest = level_words(s, e);
        let k = choose|k: int| 0 <= k < rest.len() && rest[k] == (i, i + w.len(), l);
        match level_of(s.subrange(j, e)) {
            Some(lj) => {
                assert((seq![(j, e, lj)] + rest)[k + 1] == rest[k]);
            },
            None => {},
        }
    }
}

pub open spec fn highlight_view(h: Highlight) -> (int, int, Level) {
    (h.start as int, h.end as int, h.level)
}

fn level_exec(v: &Vec<char>, from: usize, to: usize) -> (r: Option<Level>)
    requires
        from <= to <= v.len(),
    ensures
        r == level_of(v@.subrange(from as int, to as int)),
{
    if spells(v, from, to, "ERROR") || spells(v, from, to, "FATAL") || spells(v, from, to, "PANIC") {
        Some(Level::Error)
    } else if spells(v, from, to, "WARN") || spells(v, from, to, "WARNING") {
        Some(Level::Warn)
    } else if spells(v, from, to, "INFO") {
        Some(Level::Info)
    } else if spells(v, from, to, "DEBUG") {
        Some(Level::Debug)
    } else if spells(v, from, to, "TRACE") {
        Some(Level::Trace)
    } else {
        None
    }
}

/// The words of a line that name a level, in order.
pub fn highlight_line(line: &str) -> (r: Vec<Highlight>)
    ensures
        r@.map_values(|h: Highlight| highlight_view(h)) == level_words(line@, 0),
{
    let v = chars_of(line);
    let mut r: Vec<Highlight> = Vec::new();
    let mut i: usize = 0;
    while i < v.len()
        invariant
            i <= v.len(),
            v@ == line@,
            level_words(v@, 0) == r@.map_values(|h: Highlight| highlight_view(h)) + level_words(
                v@,
                i as int,
            ),
        decreases v.len() - i,
    {
        if is_space_char(v[i]) {
            i += 1;
        } else {
            let e = first_word_end(&v, i);
            proof {
                assert(first_word(v@.skip(i as int)).len() == e - i);
                assert(e > i) by {
                    assert(!is_space(v@.skip(i as int)[0]));
                }
            }
            let ghost before = r@.map_values(|h: Highlight| highlight_view(h));
            assert(level_words(v@, i as int) == words_after(v@, i as int, e as int));
            match level_exec(&v, i, e) {
                Some(level) => {
                    r.push(Highlight { start: i, end: e, level });
                    assert(r@.map_values(|h: Highlight| highlight_view(h)) =~= before.push(
                        (i as int, e as int, level),
                    ));
                    assert(before + level_words(v@, i as int) =~= before.push(
                        (i as int, e as int, level),
                    ) + level_words(v@, e as int));
                },
                None => {},
            }
            i = e;
        }
    }
    r
}

} // verus!
