//! Loading a log: cleaning its text, splitting it into lines and grouping the
//! lines into timestamped entries.
use vstd::prelude::*;

use crate::selector::{
    answer_view, auto_select, select_auto, AutoTimestampSelector, SelectedTimestamp,
    TimestampSelector,
};
use crate::text::{
    append_chars, chars_of, is_control, is_control_char, lines, push_char, replace_chars,
    replace_chars_in, split_lines, string_of,
};
use crate::timestamp::Timestamp;

verus! {

/// One entry of a log: the instant of the line that opened it and its message,
/// continuation lines included.
pub struct LogEntry {
    pub timestamp: Timestamp,
    pub message: String,
}

impl View for LogEntry {
    type V = (Timestamp, Seq<char>);

    open spec fn view(&self) -> (Timestamp, Seq<char>) {
        (self.timestamp, self.message@)
    }
}

impl LogEntry {
    pub fn new(timestamp: Timestamp, message: String) -> (e: LogEntry)
        ensures
            e@ == (timestamp, message@),
    {
        LogEntry { timestamp, message }
    }

    pub fn get_log_message(&self) -> (m: &str)
        ensures
            m@ == self@.1,
    {
        self.message.as_str()
    }

    pub fn timestamp(&self) -> (t: Timestamp)
        ensures
            t == self@.0,
    {
        self.timestamp
    }
}

/// The plain values of a run of entries.
pub open spec fn entries_view(es: Seq<LogEntry>) -> Seq<(Timestamp, Seq<char>)> {
    es.map_values(|e: LogEntry| e@)
}

/// A loaded log: its path, its entries in file order, and the selector that found
/// their timestamps.
pub struct LogFile<S: TimestampSelector = AutoTimestampSelector> {
    pub _path: String,
    pub entities: Vec<LogEntry>,
    pub _selector: S,
}

/// What `strip_ansi_escapes::strip_str` gives for a text.
pub uninterp spec fn ansi_stripped(s: Seq<char>) -> Seq<char>;

/// Calls `strip_ansi_escapes::strip_str`. Trusted: the result is that function's
/// answer for `s`; which escape sequences it removes is not stated.
#[verifier::external_body]
fn strip_ansi(s: &str) -> (r: String)
    ensures
        r@ == ansi_stripped(s@),
{
    strip_ansi_escapes::strip_str(s)
}

/// Tabs become four spaces.
pub open spec fn expand_tabs(s: Seq<char>) -> Seq<char> {
    replace_chars(s, '\t', '\t', "    "@)
}

/// Characters that survive cleaning: all but control characters, newlines kept.
pub open spec fn kept(c: char) -> bool {
    !is_control(c) || c == '\n'
}

/// The text of a log as it is parsed: tabs expanded, terminal escape sequences
/// removed, then every control character but the newline removed.
pub open spec fn sanitize(source: Seq<char>) -> Seq<char> {
    ansi_stripped(expand_tabs(source)).filter(|c: char| kept(c))
}

/// The entries that the first `n` lines give, by the selector's answers: a line
/// with a timestamp opens an entry; any other line joins the message of the entry
/// before it, after a newline, or is dropped when there is none.
pub open spec fn assemble(
    lines: Seq<Seq<char>>,
    answers: Seq<Option<(Timestamp, Seq<char>)>>,
    n: nat,
) -> Seq<(Timestamp, Seq<char>)>
    decreases n,
{
    if n == 0 {
        Seq::empty()
    } else {
        let before = assemble(lines, answers, (n - 1) as nat);
        match answers[n - 1] {
            Some(opened) => before.push(opened),
            None => if before.len() > 0 {
                let last = before.last();
                before.update(
                    before.len() - 1,
                    (last.0, last.1 + seq!['\n'] + lines[n - 1]),
                )
            } else {
                before
            },
        }
    }
}

/// The entries of a whole log text, given a selector's answer for each line.
pub open spec fn parse_log(
    source: Seq<char>,
    answers: Seq<Option<(Timestamp, Seq<char>)>>,
) -> Seq<(Timestamp, Seq<char>)> {
    assemble(lines(sanitize(source)), answers, lines(sanitize(source)).len())
}

/// The answers of the automatic selector for a sequence of lines.
pub open spec fn auto_answers(ls: Seq<Seq<char>>) -> Seq<Option<(Timestamp, Seq<char>)>> {
    ls.map_values(|l: Seq<char>| auto_select(l))
}

/// The cleaned lines of a log text.
fn clean_lines(source: &str) -> (out: Vec<Vec<char>>)
    ensures
        out@.len() == lines(sanitize(source@)).len(),
        forall|k: int| 0 <= k < out@.len() ==> #[trigger] out@[k]@ == lines(sanitize(source@))[k],
{
    let src = chars_of(source);
    let four = chars_of("    ");
    let expanded_chars = replace_chars_in(&src, '\t', '\t', &four);
    let expanded = string_of(&expanded_chars, 0, expanded_chars.len());
    assert(expanded_chars@.subrange(0, expanded_chars.len() as int) == expanded_chars@);
    let stripped = strip_ansi(expanded.as_str());
    let chars = chars_of(stripped.as_str());
    let mut kept_chars: Vec<char> = Vec::new();
    let mut i: usize = 0;
    while i < chars.len()
        invariant
            i <= chars.len(),
            kept_chars@ == chars@.take(i as int).filter(|c: char| kept(c)),
        decreases chars.len() - i,
    {
        let c = chars[i];
        assert(chars@.take(i + 1).drop_last() == chars@.take(i as int));
        reveal_with_fuel(Seq::filter, 1);
        if !is_control_char(c) || c == '\n' {
            kept_chars.push(c);
        }
        i += 1;
    }
    assert(chars@.take(chars.len() as int) == chars@);
    split_lines(&kept_chars)
}

/// Each cleaned line as a text of its own.
fn line_texts(ls: &Vec<Vec<char>>) -> (out: Vec<String>)
    ensures
        out@.len() == ls@.len(),
        forall|j: int| 0 <= j < ls@.len() ==> #[trigger] out@[j]@ == ls@[j]@,
{
    let mut out: Vec<String> = Vec::new();
    let mut k: usize = 0;
    while k < ls.len()
        invariant
            k <= ls@.len(),
            out@.len() == k,
            forall|j: int| 0 <= j < k ==> #[trigger] out@[j]@ == ls@[j]@,
        decreases ls.len() - k,
    {
        let line = string_of(&ls[k], 0, ls[k].len());
        assert(ls@[k as int]@.subrange(0, ls@[k as int]@.len() as int) == ls@[k as int]@);
        out.push(line);
        k += 1;
    }
    out
}

/// Builds the entries of a log from its lines and the answer for each line.
fn build_entries<'a>(ls: &Vec<Vec<char>>, answers: Vec<Option<SelectedTimestamp<'a>>>) -> (es: Vec<
    LogEntry,
>)
    requires
        answers@.len() == ls@.len(),
    ensures
        entries_view(es@) == assemble(
            ls@.map_values(|l: Vec<char>| l@),
            answers@.map_values(|a: Option<SelectedTimestamp>| answer_view(a)),
            ls@.len(),
        ),
{
    let ghost lv = ls@.map_values(|l: Vec<char>| l@);
    let ghost av = answers@.map_values(|a: Option<SelectedTimestamp>| answer_view(a));
    let mut es: Vec<LogEntry> = Vec::new();
    let mut rest = answers;
    let ghost all = answers@;
    let mut n: usize = 0;
    while n < ls.len()
        invariant
            n <= ls@.len(),
            all.len() == ls@.len(),
            rest@ == all.skip(n as int),
            lv == ls@.map_values(|l: Vec<char>| l@),
            av == all.map_values(|a: Option<SelectedTimestamp>| answer_view(a)),
            entries_view(es@) == assemble(lv, av, n as nat),
        decreases ls.len() - n,
    {
        let a = rest.remove(0);
        assert(a == all[n as int]);
        assert(all.skip(n as int).skip(1) == all.skip(n + 1));
        assert(answer_view(a) == av[n as int]);
        assert(lv[n as int] == ls@[n as int]@);
        match a {
            Some(opened) => {
                let ghost before = entries_view(es@);
                let ghost item = (opened.timestamp, opened.message@);
                es.push(LogEntry { timestamp: opened.timestamp, message: opened.message.to_owned() });
                assert(entries_view(es@) =~= before.push(item));
                assert(av[n as int] == Some(item));
                assert(assemble(lv, av, (n + 1) as nat) == assemble(lv, av, n as nat).push(item));
                assert(entries_view(es@) == assemble(lv, av, (n + 1) as nat));
            },
            None => {
                if es.len() > 0 {
                    let ghost before = entries_view(es@);
                    let mut last = es.pop().unwrap();
                    let ghost prev = last@;
                    assert(prev == before.last());
                    push_char(&mut last.message, '\n');
                    append_chars(&mut last.message, &ls[n]);
                    assert(last@ == (prev.0, prev.1 + seq!['\n'] + lv[n as int]));
                    es.push(last);
                    assert(entries_view(es@) =~= before.update(before.len() - 1, last@));
                    assert(entries_view(es@) == assemble(lv, av, (n + 1) as nat));
                } else {
                    assert(entries_view(es@) == assemble(lv, av, (n + 1) as nat));
                }
            },
        }
        n += 1;
    }
    es
}

impl LogFile<AutoTimestampSelector> {
    /// Loads a log from its text with the automatic selector.
    pub fn from_source(path: String, source: &str) -> (log: Self)
        ensures
            log._path@ == path@,
            entries_view(log.entities@) == parse_log(
                source@,
                auto_answers(lines(sanitize(source@))),
            ),
    {
        let ls = clean_lines(source);
        let texts = line_texts(&ls);
        let mut answers: Vec<Option<SelectedTimestamp>> = Vec::new();
        let ghost want = auto_answers(lines(sanitize(source@)));
        let mut k: usize = 0;
        while k < ls.len()
            invariant
                k <= ls@.len(),
                texts@.len() == ls@.len(),
                forall|j: int| 0 <= j < ls@.len() ==> #[trigger] texts@[j]@ == ls@[j]@,
                ls@.len() == lines(sanitize(source@)).len(),
                forall|j: int| 0 <= j < ls@.len() ==> #[trigger] ls@[j]@ == lines(sanitize(source@))[j],
                answers@.len() == k,
                want == auto_answers(lines(sanitize(source@))),
                forall|j: int| 0 <= j < k ==> answer_view(#[trigger] answers@[j]) == want[j],
            decreases ls.len() - k,
        {
            let a = select_auto(texts[k].as_str());
            assert(want[k as int] == auto_select(lines(sanitize(source@))[k as int]));
            answers.push(a);
            k += 1;
        }
        let es = build_entries(&ls, answers);
        proof {
            assert(ls@.map_values(|l: Vec<char>| l@) == lines(sanitize(source@)));
            assert(answers@.map_values(|a: Option<SelectedTimestamp>| answer_view(a)) == want);
        }
        LogFile { _path: path, entities: es, _selector: AutoTimestampSelector }
    }
}

impl<S: TimestampSelector> LogFile<S> {
    /// Loads a log from its text with the given selector, which is asked once
    /// for each cleaned line, in order; the log keeps the selector as the last
    /// call left it.
    ///
    /// Call `k` is `select` on `texts[k]`, which holds line `k` of the cleaned
    /// text: it starts from `states[k]`, leaves `states[k + 1]` and answers
    /// `answers[k]`. The first state is the selector handed in, the last the
    /// one kept, and the entries are those that the answers give.
    pub fn from_source_with_selector(path: String, source: &str, selector: S) -> (log: Self)
        ensures
            log._path@ == path@,
            exists|states: Seq<S>, answers: Seq<Option<SelectedTimestamp>>, texts: Seq<&str>|
                #![trigger states.last(), answers.len(), texts.len()]
                {
                    &&& states.len() == lines(sanitize(source@)).len() + 1
                    &&& answers.len() == lines(sanitize(source@)).len()
                    &&& texts.len() == answers.len()
                    &&& forall|k: int|
                        #![trigger texts[k]]
                        0 <= k < answers.len() ==> {
                            &&& texts[k]@ == lines(sanitize(source@))[k]
                            &&& exists|m: &mut S, r: Option<SelectedTimestamp>|
                                #![trigger call_ensures(S::select, (m, texts[k]), r)]
                                {
                                    &&& *m == states[k]
                                    &&& *final(m) == states[k + 1]
                                    &&& r == answers[k]
                                    &&& call_ensures(S::select, (m, texts[k]), r)
                                }
                        }
                    &&& states[0] == selector
                    &&& states.last() == log._selector
                    &&& entries_view(log.entities@) == parse_log(
                        source@,
                        answers.map_values(|a: Option<SelectedTimestamp>| answer_view(a)),
                    )
                },
    {
        let ghost first = selector;
        let mut selector = selector;
        let ls = clean_lines(source);
        let lines_text = line_texts(&ls);
        let ghost lv = lines(sanitize(source@));
        let mut answers: Vec<Option<SelectedTimestamp>> = Vec::new();
        let ghost mut states: Seq<S> = seq![selector];
        let ghost mut texts: Seq<&str> = Seq::empty();
        let mut k: usize = 0;
        while k < ls.len()
            invariant
                k <= ls@.len(),
                lv == lines(sanitize(source@)),
                ls@.len() == lv.len(),
                forall|j: int| 0 <= j < ls@.len() ==> #[trigger] ls@[j]@ == lv[j],
                lines_text@.len() == ls@.len(),
                forall|j: int| 0 <= j < ls@.len() ==> #[trigger] lines_text@[j]@ == ls@[j]@,
                answers@.len() == k,
                states.len() == k + 1,
                texts.len() == k,
                states[0] == first,
                states[k as int] == selector,
                forall|j: int|
                    #![trigger texts[j]]
                    0 <= j < k ==> {
                        &&& texts[j]@ == lv[j]
                        &&& exists|m: &mut S, r: Option<SelectedTimestamp>|
                            #![trigger call_ensures(S::select, (m, texts[j]), r)]
                            {
                                &&& *m == states[j]
                                &&& *final(m) == states[j + 1]
                                &&& r == answers@[j]
                                &&& call_ensures(S::select, (m, texts[j]), r)
                            }
                    },
            decreases ls.len() - k,
        {
            let text = lines_text[k].as_str();
            assert(ls@[k as int]@ == lv[k as int]);
            assert(text@ == lv[k as int]);
            let a = selector.select(text);
            let ghost old_texts = texts;
            let ghost old_states = states;
            let ghost old_answers = answers@;
            proof {
                texts = texts.push(text);
                states = states.push(selector);
            }
            answers.push(a);
            proof {
                assert forall|j: int|
                    #![trigger texts[j]]
                    0 <= j < k + 1 implies {
                        &&& texts[j]@ == lv[j]
                        &&& exists|m: &mut S, r: Option<SelectedTimestamp>|
                            #![trigger call_ensures(S::select, (m, texts[j]), r)]
                            {
                                &&& *m == states[j]
                                &&& *final(m) == states[j + 1]
                                &&& r == answers@[j]
                                &&& call_ensures(S::select, (m, texts[j]), r)
                            }
                    } by {
                    if j < k {
                        assert(texts[j] == old_texts[j]);
                        assert(states[j] == old_states[j]);
                        assert(states[j + 1] == old_states[j + 1]);
                        assert(answers@[j] == old_answers[j]);
                    } else {
                        assert(texts[j] == text);
                        assert(answers@[j] == a);
                    }
                }
            }
            k += 1;
        }
        let ghost given = answers@;
        let es = build_entries(&ls, answers);
        proof {
            assert(ls@.map_values(|l: Vec<char>| l@) == lv);
            assert(entries_view(es@) == parse_log(
                source@,
                given.map_values(|a: Option<SelectedTimestamp>| answer_view(a)),
            ));
            assert(states.last() == selector && given.len() == texts.len());
        }
        LogFile { _path: path, entities: es, _selector: selector }
    }

    /// The entries of the log, in file order.
    pub fn entities(&self) -> (es: &[LogEntry])
        ensures
            es@ == self.entities@,
    {
        self.entities.as_slice()
    }

    /// The path the log was loaded from.
    pub fn path(&self) -> (p: &str)
        ensures
            p@ == self._path@,
    {
        self._path.as_str()
    }
}

/// The number of lines among the first `n` that open an entry.
pub open spec fn opened(answers: Seq<Option<(Timestamp, Seq<char>)>>, n: nat) -> nat
    decreases n,
{
    if n == 0 {
        0
    } else {
        opened(answers, (n - 1) as nat) + if answers[n - 1] is Some {
            1nat
        } else {
            0nat
        }
    }
}

/// A log has one entry per line that opens one: continuation lines never make an
/// entry of their own, and lines before the first entry are dropped.
pub proof fn lemma_one_entry_per_timestamped_line(
    lines: Seq<Seq<char>>,
    answers: Seq<Option<(Timestamp, Seq<char>)>>,
    n: nat,
)
    ensures
        assemble(lines, answers, n).len() == opened(answers, n),
    decreases n,
{
    if n > 0 {
        lemma_one_entry_per_timestamped_line(lines, answers, (n - 1) as nat);
    }
}

/// Each line changes the entries in one way only. A line with a timestamp adds
/// one entry after all the others. Any other line, when an entry came before it,
/// extends the message of the most recent entry by a newline and the line,
/// keeping its instant and leaving every earlier entry as it was; when no entry
/// came before it, it changes nothing.
pub proof fn lemma_line_changes_only_the_last_entry(
    lines: Seq<Seq<char>>,
    answers: Seq<Option<(Timestamp, Seq<char>)>>,
    n: nat,
)
    ensures
        ({
            let before = assemble(lines, answers, n);
            let after = assemble(lines, answers, n + 1);
            &&& answers[n as int] matches Some(opened) ==> {
                &&& after.len() == before.len() + 1
                &&& after.take(before.len() as int) == before
                &&& after[before.len() as int] == opened
            }
            &&& answers[n as int] is None && before.len() == 0 ==> after == before
            &&& answers[n as int] is None && before.len() > 0 ==> {
                &&& after.len() == before.len()
                &&& forall|j: int| 0 <= j < before.len() - 1 ==> #[trigger] after[j] == before[j]
                &&& after[before.len() - 1].0 == before[before.len() - 1].0
                &&& after[before.len() - 1].1 == before[before.len() - 1].1 + seq!['\n'] + lines[n as int]
            }
        }),
{
    let before = assemble(lines, answers, n);
    let after = assemble(lines, answers, n + 1);
    assert(after == (match answers[n as int] {
        Some(opened) => before.push(opened),
        None => if before.len() > 0 {
            let last = before.last();
            before.update(before.len() - 1, (last.0, last.1 + seq!['\n'] + lines[n as int]))
        } else {
            before
        },
    }));
    if answers[n as int] is Some {
        assert(after.take(before.len() as int) =~= before);
    }
}

/// An entry opened by a line keeps that line's instant, and its message begins
/// with the message the selector found there, whatever lines join it later.
pub proof fn lemma_entries_keep_their_opening(
    lines: Seq<Seq<char>>,
    answers: Seq<Option<(Timestamp, Seq<char>)>>,
    k: nat,
    n: nat,
)
    requires
        k < n <= answers.len(),
        answers[k as int] is Some,
    ensures
        ({
            let e = assemble(lines, answers, n)[opened(answers, k) as int];
            let a = answers[k as int]->0;
            e.0 == a.0 && e.1.len() >= a.1.len() && e.1.take(a.1.len() as int) == a.1
        }),
    decreases n,
{
    lemma_one_entry_per_timestamped_line(lines, answers, (n - 1) as nat);
    lemma_one_entry_per_timestamped_line(lines, answers, k);
    if k < n - 1 {
        lemma_opened_monotone(answers, k + 1, (n - 1) as nat);
        lemma_entries_keep_their_opening(lines, answers, k, (n - 1) as nat);
        let before = assemble(lines, answers, (n - 1) as nat);
        let j = opened(answers, k) as int;
        assert(opened(answers, k + 1) == opened(answers, k) + 1);
        assert(j < before.len());
        let a = answers[k as int]->0;
        if answers[n - 1] is None && before.len() > 0 && j == before.len() - 1 {
            let last = before.last();
            assert((last.1 + seq!['\n'] + lines[n - 1]).take(a.1.len() as int) == last.1.take(
                a.1.len() as int,
            ));
        }
    }
}

proof fn lemma_opened_monotone(answers: Seq<Option<(Timestamp, Seq<char>)>>, a: nat, b: nat)
    requires
        a <= b,
    ensures
        opened(answers, a) <= opened(answers, b),
    decreases b,
{
    if a < b {
        lemma_opened_monotone(answers, a, (b - 1) as nat);
    }
}

impl<S: TimestampSelector> AsRef<[LogEntry]> for LogFile<S> {
    /// The entries of the log, in file order.
    fn as_ref(&self) -> (es: &[LogEntry])
        ensures
            es@ == self.entities@,
    {
        self.entities.as_slice()
    }
}

} // verus!
