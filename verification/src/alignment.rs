//! Aligning any number of logs by timestamp.
//!
//! Each row takes the earliest timestamp still pending in any log; every log
//! whose next entry has that timestamp gives that entry to the row, and every
//! other log gives a blank. Duplicate timestamps therefore pair up in the order
//! in which they occur, one entry per log per row.
use vstd::prelude::*;

use crate::compare_result::{aligned, column_view, columns_view, CompareResult};
use crate::compare::Compare;
use crate::logfile::{entries_view, LogEntry};
use crate::timestamp::{chrono_utc_text, ts_le, utc_text, Timestamp};

verus! {

/// A log entry as plain values: its instant and its message.
pub type Entry = (Timestamp, Seq<char>);

/// One aligned row: its instant and, for each log, the message it gives, if any.
pub ghost struct Row {
    pub timestamp: Timestamp,
    pub cells: Seq<Option<Seq<char>>>,
}

/// The instant of the next pending entry of a log.
pub open spec fn head(l: Seq<Entry>) -> Option<Timestamp> {
    if l.len() > 0 {
        Some(l[0].0)
    } else {
        None
    }
}

/// The earlier of two optional instants.
pub open spec fn earlier(a: Option<Timestamp>, b: Option<Timestamp>) -> Option<Timestamp> {
    match (a, b) {
        (None, x) => x,
        (Some(p), None) => Some(p),
        (Some(p), Some(q)) => if ts_le(p, q) {
            Some(p)
        } else {
            Some(q)
        },
    }
}

/// The earliest instant pending among the first `k` logs.
pub open spec fn min_head(logs: Seq<Seq<Entry>>, k: nat) -> Option<Timestamp>
    decreases k,
{
    if k == 0 {
        None
    } else {
        earlier(min_head(logs, (k - 1) as nat), head(logs[k - 1]))
    }
}

/// The earliest instant pending in any log.
pub open spec fn pending_min(logs: Seq<Seq<Entry>>) -> Option<Timestamp> {
    min_head(logs, logs.len())
}

/// A log gives its next entry to the row of instant `m`.
pub open spec fn takes(l: Seq<Entry>, m: Timestamp) -> bool {
    l.len() > 0 && l[0].0 == m
}

/// The row of instant `m`.
pub open spec fn row_of(logs: Seq<Seq<Entry>>, m: Timestamp) -> Row {
    Row {
        timestamp: m,
        cells: Seq::new(
            logs.len(),
            |i: int|
                if takes(logs[i], m) {
                    Some(logs[i][0].1)
                } else {
                    None
                },
        ),
    }
}

/// What is pending after the row of instant `m`.
pub open spec fn advance(logs: Seq<Seq<Entry>>, m: Timestamp) -> Seq<Seq<Entry>> {
    Seq::new(
        logs.len(),
        |i: int|
            if takes(logs[i], m) {
                logs[i].skip(1)
            } else {
                logs[i]
            },
    )
}

/// The number of entries in the first `k` logs.
pub open spec fn total_upto(logs: Seq<Seq<Entry>>, k: nat) -> nat
    decreases k,
{
    if k == 0 {
        0
    } else {
        total_upto(logs, (k - 1) as nat) + logs[k - 1].len()
    }
}

/// The number of pending entries.
pub open spec fn total(logs: Seq<Seq<Entry>>) -> nat {
    total_upto(logs, logs.len())
}

/// The rows of the alignment of `logs`.
pub open spec fn align(logs: Seq<Seq<Entry>>) -> Seq<Row>
    decreases total(logs),
    via align_decreases
{
    match pending_min(logs) {
        None => Seq::empty(),
        Some(m) => seq![row_of(logs, m)] + align(advance(logs, m)),
    }
}

#[via_fn]
proof fn align_decreases(logs: Seq<Seq<Entry>>) {
    if let Some(m) = pending_min(logs) {
        lemma_advance_shrinks(logs, m);
    }
}

/// A row takes at least one pending entry.
proof fn lemma_advance_shrinks(logs: Seq<Seq<Entry>>, m: Timestamp)
    requires
        pending_min(logs) == Some(m),
    ensures
        total(advance(logs, m)) < total(logs),
{
    lemma_min_head_witness(logs, logs.len());
    let i = choose|i: int| 0 <= i < logs.len() && takes(logs[i], m);
    lemma_total_advance(logs, m, logs.len(), i);
}

/// An earliest pending instant is the instant of some log's next entry.
pub proof fn lemma_min_head_witness(logs: Seq<Seq<Entry>>, k: nat)
    requires
        k <= logs.len(),
        min_head(logs, k) is Some,
    ensures
        exists|i: int| 0 <= i < k && takes(logs[i], min_head(logs, k)->0),
    decreases k,
{
    let m = min_head(logs, k)->0;
    let prev = min_head(logs, (k - 1) as nat);
    if prev is Some && prev == Some(m) {
        lemma_min_head_witness(logs, (k - 1) as nat);
        let i = choose|i: int| 0 <= i < k - 1 && takes(logs[i], prev->0);
        assert(takes(logs[i], m));
    } else {
        assert(takes(logs[k - 1], m));
    }
}

/// An earliest pending instant is no later than the next entry of any log.
pub proof fn lemma_min_head_least(logs: Seq<Seq<Entry>>, k: nat, i: int)
    requires
        k <= logs.len(),
        0 <= i < k,
        logs[i].len() > 0,
    ensures
        min_head(logs, k) is Some,
        ts_le(min_head(logs, k)->0, logs[i][0].0),
    decreases k,
{
    if i < k - 1 {
        lemma_min_head_least(logs, (k - 1) as nat, i);
    }
}

/// No instant is pending exactly when every log is exhausted.
pub proof fn lemma_min_head_none(logs: Seq<Seq<Entry>>, k: nat)
    requires
        k <= logs.len(),
        min_head(logs, k) is None,
    ensures
        forall|i: int| 0 <= i < k ==> (#[trigger] logs[i]).len() == 0,
    decreases k,
{
    if k > 0 {
        lemma_min_head_none(logs, (k - 1) as nat);
    }
}

/// Advancing past a row removes one entry from each log that gave one.
proof fn lemma_total_advance(logs: Seq<Seq<Entry>>, m: Timestamp, k: nat, w: int)
    requires
        k <= logs.len(),
    ensures
        total_upto(advance(logs, m), k) <= total_upto(logs, k),
        0 <= w < k && takes(logs[w], m) ==> total_upto(advance(logs, m), k) < total_upto(logs, k),
    decreases k,
{
    if k > 0 {
        lemma_total_advance(logs, m, (k - 1) as nat, w);
    }
}

/// The plain values of the logs handed to `compare_logfiles`.
pub open spec fn logs_view(logs: Seq<&[LogEntry]>) -> Seq<Seq<Entry>> {
    logs.map_values(|l: &[LogEntry]| entries_view(l@))
}

/// The text of a cell: the message, or a newline for a blank.
pub open spec fn cell_text(c: Option<Seq<char>>) -> Seq<char> {
    match c {
        Some(m) => m,
        None => "\n"@,
    }
}

/// The message columns of a sequence of rows over `n` logs.
pub open spec fn rows_columns(rows: Seq<Row>, n: nat) -> Seq<Seq<Seq<char>>> {
    Seq::new(n, |i: int| Seq::new(rows.len(), |r: int| cell_text(rows[r].cells[i])))
}

/// The timestamp column of a sequence of rows.
pub open spec fn rows_timestamps(rows: Seq<Row>) -> Seq<Seq<char>> {
    Seq::new(
        rows.len(),
        |r: int| chrono_utc_text(rows[r].timestamp.secs, rows[r].timestamp.nanos),
    )
}

/// What is pending when log `i` has given its first `pos[i]` entries.
pub open spec fn rest_of(lv: Seq<Seq<Entry>>, pos: Seq<usize>) -> Seq<Seq<Entry>> {
    Seq::new(lv.len(), |i: int| lv[i].skip(pos[i] as int))
}

/// Aligns logs sorted by timestamp, using a newline for missing entries; the
/// timestamp column prints each row's instant in UTC.
pub fn compare_logfiles(logs: Vec<&[LogEntry]>) -> (r: CompareResult)
    ensures
        r@.columns == rows_columns(align(logs_view(logs@)), logs@.len()),
        r@.timestamps == rows_timestamps(align(logs_view(logs@))),
        r@.length == align(logs_view(logs@)).len(),
        aligned(r@),
{
    let n = logs.len();
    let ghost lv = logs_view(logs@);
    let mut pos: Vec<usize> = Vec::new();
    let mut cols: Vec<Vec<String>> = Vec::new();
    let mut k: usize = 0;
    while k < n
        invariant
            k <= n == logs@.len(),
            pos@.len() == k,
            cols@.len() == k,
            forall|j: int| 0 <= j < k ==> pos@[j] == 0,
            forall|j: int| 0 <= j < k ==> (#[trigger] cols@[j])@.len() == 0,
        decreases n - k,
    {
        pos.push(0);
        cols.push(Vec::new());
        k += 1;
    }
    let mut stamps: Vec<String> = Vec::new();
    let ghost mut done: Seq<Row> = Seq::empty();
    assert(rest_of(lv, pos@) =~= lv) by {
        assert forall|i: int| 0 <= i < lv.len() implies rest_of(lv, pos@)[i] == lv[i] by {
            assert(lv[i].skip(0) == lv[i]);
        }
    }
    assert(columns_view(cols@) =~= rows_columns(done, n as nat)) by {
        assert forall|j: int| 0 <= j < n implies columns_view(cols@)[j] =~= rows_columns(
            done,
            n as nat,
        )[j] by {
            assert(cols@[j]@.len() == 0);
        }
    }
    loop
        invariant
            n == logs@.len(),
            lv == logs_view(logs@),
            pos@.len() == n,
            cols@.len() == n,
            forall|j: int| 0 <= j < n ==> pos@[j] <= logs@[j]@.len(),
            done + align(rest_of(lv, pos@)) == align(lv),
            columns_view(cols@) == rows_columns(done, n as nat),
            stamps@.map_values(|s: String| s@) == rows_timestamps(done),
        ensures
            done == align(lv),
            columns_view(cols@) == rows_columns(done, n as nat),
            stamps@.map_values(|s: String| s@) == rows_timestamps(done),
        decreases total(rest_of(lv, pos@)),
    {
        let ghost rest = rest_of(lv, pos@);
        let mut cur: Option<Timestamp> = None;
        let mut i: usize = 0;
        while i < n
            invariant
                i <= n == logs@.len(),
                pos@.len() == n,
                rest == rest_of(lv, pos@),
                lv == logs_view(logs@),
                forall|j: int| 0 <= j < n ==> pos@[j] <= logs@[j]@.len(),
                cur == min_head(rest, i as nat),
            decreases n - i,
        {
            let p = pos[i];
            let l: &[LogEntry] = logs[i];
            if p < l.len() {
                let t = l[p].key();
                assert(head(rest[i as int]) == Some(t));
                cur = match cur {
                    None => Some(t),
                    Some(c) => if c.is_at_or_before(&t) {
                        Some(c)
                    } else {
                        Some(t)
                    },
                };
            } else {
                assert(rest[i as int].len() == 0);
            }
            i += 1;
        }
        let m = match cur {
            None => {
                assert(align(rest) == Seq::<Row>::empty());
                assert(done == align(lv));
                break ;
            },
            Some(m) => m,
        };
        proof {
            lemma_min_head_witness(rest, n as nat);
            let w = choose|w: int| 0 <= w < rest.len() && takes(rest[w], m);
            lemma_total_advance(rest, m, n as nat, w);
        }
        let row = Ghost(row_of(rest, m));
        let ghost stamps0 = stamps@.map_values(|s: String| s@);
        let stamp = utc_text(&m);
        stamps.push(stamp);
        assert(stamps@.map_values(|s: String| s@) =~= stamps0.push(stamp@));
        let ghost pos0 = pos@;
        let ghost cols0 = columns_view(cols@);
        let mut i: usize = 0;
        while i < n
            invariant
                i <= n == logs@.len(),
                pos@.len() == n,
                cols@.len() == n,
                lv == logs_view(logs@),
                rest == rest_of(lv, pos0),
                pos0.len() == n,
                row@ == row_of(rest, m),
                forall|j: int| 0 <= j < n ==> pos0[j] <= logs@[j]@.len(),
                forall|j: int| 0 <= j < n ==> pos@[j] <= logs@[j]@.len(),
                forall|j: int|
                    0 <= j < i ==> pos@[j] == pos0[j] + (if takes(rest[j], m) {
                        1int
                    } else {
                        0int
                    }),
                forall|j: int| i <= j < n ==> pos@[j] == pos0[j],
                forall|j: int|
                    0 <= j < i ==> columns_view(cols@)[j] == cols0[j].push(
                        cell_text(row@.cells[j]),
                    ),
                forall|j: int| i <= j < n ==> columns_view(cols@)[j] == cols0[j],
                cols0.len() == n,
            decreases n - i,
        {
            let p = pos[i];
            let l: &[LogEntry] = logs[i];
            let ghost before = cols@;
            let ghost text: Seq<char>;
            if p < l.len() && l[p].key().same_instant(&m) {
                let msg = l[p].message.clone();
                assert(takes(rest[i as int], m));
                assert(msg@ == rest[i as int][0].1);
                proof {
                    text = msg@;
                }
                cols[i].push(msg);
                pos.set(i, p + 1);
            } else {
                assert(!takes(rest[i as int], m));
                let blank = String::from_str("\n");
                proof {
                    text = blank@;
                }
                cols[i].push(blank);
            }
            proof {
                assert(text == cell_text(row@.cells[i as int]));
                assert forall|j: int| 0 <= j < n && j != i implies columns_view(cols@)[j]
                    == columns_view(before)[j] by {
                    assert(cols@[j] == before[j]);
                }
                assert(column_view(cols@[i as int]) =~= column_view(before[i as int]).push(text));
                assert(columns_view(cols@)[i as int] == column_view(cols@[i as int]));
                assert(columns_view(before)[i as int] == column_view(before[i as int]));
                assert(columns_view(before)[i as int] == cols0[i as int]);
                assert(columns_view(cols@)[i as int] == cols0[i as int].push(
                    cell_text(row@.cells[i as int]),
                ));
                assert forall|j: int| 0 <= j < i implies columns_view(cols@)[j] == cols0[j].push(
                    cell_text(row@.cells[j]),
                ) by {
                    assert(columns_view(cols@)[j] == columns_view(before)[j]);
                }
                assert forall|j: int| i < j < n implies columns_view(cols@)[j] == cols0[j] by {
                    assert(columns_view(cols@)[j] == columns_view(before)[j]);
                }
            }
            i += 1;
        }
        proof {
            let new_rest = rest_of(lv, pos@);
            assert(new_rest =~= advance(rest, m)) by {
                assert forall|j: int| 0 <= j < n implies new_rest[j] == advance(rest, m)[j] by {
                    if takes(rest[j], m) {
                        assert(lv[j].skip(pos0[j] as int).skip(1) == lv[j].skip(pos0[j] + 1));
                    }
                }
            }
            assert(align(rest) == seq![row@] + align(new_rest));
            let done0 = done;
            done = done.push(row@);
            assert(done + align(new_rest) =~= done0 + align(rest));
            assert(columns_view(cols@) =~= rows_columns(done, n as nat)) by {
                assert forall|j: int| 0 <= j < n implies columns_view(cols@)[j] =~= rows_columns(
                    done,
                    n as nat,
                )[j] by {
                    assert(cols0[j] == rows_columns(done0, n as nat)[j]);
                }
            }
            assert(stamps@.map_values(|s: String| s@) =~= rows_timestamps(done));
        }
    }
    proof {
        assert forall|i: int| 0 <= i < cols@.len() implies (#[trigger] cols@[i])@.len()
            == stamps@.len() by {
            assert(columns_view(cols@)[i] == column_view(cols@[i]));
            assert(stamps@.map_values(|s: String| s@).len() == stamps@.len());
        }
    }
    CompareResult::from_columns(cols, stamps)
}

/// The entries that log `i` gives to a sequence of rows, each with its row's
/// instant, in row order.
pub open spec fn column_taken(rows: Seq<Row>, i: int) -> Seq<Entry>
    decreases rows.len(),
{
    if rows.len() == 0 {
        Seq::empty()
    } else {
        (match rows[0].cells[i] {
            Some(msg) => seq![(rows[0].timestamp, msg)],
            None => Seq::empty(),
        }) + column_taken(rows.skip(1), i)
    }
}

/// Entries of a log appear in non-decreasing order of time.
pub open spec fn sorted(l: Seq<Entry>) -> bool {
    forall|a: int, b: int| 0 <= a <= b < l.len() ==> ts_le(#[trigger] l[a].0, #[trigger] l[b].0)
}

/// No entry in any log is earlier than `lb`.
pub open spec fn bounded_below(logs: Seq<Seq<Entry>>, lb: Timestamp) -> bool {
    forall|i: int, j: int|
        0 <= i < logs.len() && 0 <= j < logs[i].len() ==> ts_le(lb, #[trigger] logs[i][j].0)
}

/// Every log's entries reappear in its column, each once, in their order, in a
/// row stamped with the entry's own instant: no entry is lost, duplicated,
/// reordered or moved to another time.
pub proof fn lemma_align_keeps_entries(logs: Seq<Seq<Entry>>, i: int)
    requires
        0 <= i < logs.len(),
    ensures
        column_taken(align(logs), i) == logs[i],
    decreases total(logs),
{
    match pending_min(logs) {
        None => {
            lemma_min_head_none(logs, logs.len());
            assert(logs[i].len() == 0);
        },
        Some(m) => {
            lemma_advance_shrinks(logs, m);
            let adv = advance(logs, m);
            lemma_align_keeps_entries(adv, i);
            let rows = align(logs);
            assert(rows == seq![row_of(logs, m)] + align(adv));
            assert(rows.skip(1) == align(adv));
            if takes(logs[i], m) {
                assert(logs[i] =~= seq![(m, logs[i][0].1)] + logs[i].skip(1));
            }
        },
    }
}

/// Some log among the first `n` gives an entry to the row.
pub open spec fn holds_entry(row: Row, n: nat) -> bool {
    exists|i: int| 0 <= i < n && (#[trigger] row.cells[i]) is Some
}

/// Each row holds the entry of at least one log, has a cell for every log, and
/// no more rows are made than there are entries.
pub proof fn lemma_align_rows_nonempty(logs: Seq<Seq<Entry>>)
    ensures
        align(logs).len() <= total(logs),
        forall|r: int|
            0 <= r < align(logs).len() ==> (#[trigger] align(logs)[r]).cells.len() == logs.len(),
        forall|r: int| 0 <= r < align(logs).len() ==> holds_entry(#[trigger] align(logs)[r], logs.len()),
    decreases total(logs),
{
    match pending_min(logs) {
        None => {},
        Some(m) => {
            lemma_min_head_witness(logs, logs.len());
            let w = choose|w: int| 0 <= w < logs.len() && takes(logs[w], m);
            lemma_total_advance(logs, m, logs.len(), w);
            let adv = advance(logs, m);
            lemma_align_rows_nonempty(adv);
            let rows = align(logs);
            assert(rows == seq![row_of(logs, m)] + align(adv));
            assert(row_of(logs, m).cells[w] is Some);
            assert(holds_entry(rows[0], logs.len()));
            assert forall|r: int| 0 <= r < rows.len() implies holds_entry(#[trigger] rows[r], logs.len()) by {
                if r > 0 {
                    assert(rows[r] == align(adv)[r - 1]);
                }
            }
        },
    }
}

/// Each row takes the earliest instant pending in any log, and exactly the logs
/// whose next entry has that instant give an entry to it.
pub proof fn lemma_align_earliest_first(logs: Seq<Seq<Entry>>)
    ensures
        align(logs).len() == 0 <==> (forall|i: int| 0 <= i < logs.len() ==> (#[trigger] logs[i]).len() == 0),
        align(logs).len() > 0 ==> {
            let row = align(logs)[0];
            &&& exists|i: int| 0 <= i < logs.len() && #[trigger] takes(logs[i], row.timestamp)
            &&& forall|i: int|
                0 <= i < logs.len() && logs[i].len() > 0 ==> ts_le(
                    row.timestamp,
                    (#[trigger] logs[i])[0].0,
                )
            &&& row == row_of(logs, row.timestamp)
            &&& align(logs).skip(1) == align(advance(logs, row.timestamp))
        },
{
    match pending_min(logs) {
        None => {
            lemma_min_head_none(logs, logs.len());
        },
        Some(m) => {
            lemma_min_head_witness(logs, logs.len());
            assert forall|i: int| 0 <= i < logs.len() && logs[i].len() > 0 implies ts_le(
                m,
                (#[trigger] logs[i])[0].0,
            ) by {
                lemma_min_head_least(logs, logs.len(), i);
            }
            let w = choose|w: int| 0 <= w < logs.len() && takes(logs[w], m);
            assert(logs[w].len() != 0);
            assert((seq![row_of(logs, m)] + align(advance(logs, m))).skip(1) == align(
                advance(logs, m),
            ));
        },
    }
}

/// A row is never earlier than a bound below every pending entry.
proof fn lemma_align_bounded(logs: Seq<Seq<Entry>>, lb: Timestamp)
    requires
        bounded_below(logs, lb),
    ensures
        forall|r: int| 0 <= r < align(logs).len() ==> ts_le(lb, (#[trigger] align(logs)[r]).timestamp),
    decreases total(logs),
{
    if let Some(m) = pending_min(logs) {
        lemma_advance_shrinks(logs, m);
        lemma_min_head_witness(logs, logs.len());
        let w = choose|w: int| 0 <= w < logs.len() && takes(logs[w], m);
        assert(ts_le(lb, logs[w][0].0));
        let adv = advance(logs, m);
        assert(bounded_below(adv, lb)) by {
            assert forall|i: int, j: int| 0 <= i < adv.len() && 0 <= j < adv[i].len() implies ts_le(
                lb,
                #[trigger] adv[i][j].0,
            ) by {
                if takes(logs[i], m) {
                    assert(adv[i][j] == logs[i][j + 1]);
                }
            }
        }
        lemma_align_bounded(adv, lb);
        let rows = align(logs);
        assert(rows == seq![row_of(logs, m)] + align(adv));
        assert forall|r: int| 0 <= r < rows.len() implies ts_le(lb, (#[trigger] rows[r]).timestamp) by {
            if r > 0 {
                assert(rows[r] == align(adv)[r - 1]);
            }
        }
    }
}

/// When every log is sorted by time, so are the rows.
pub proof fn lemma_align_sorted(logs: Seq<Seq<Entry>>)
    requires
        forall|i: int| 0 <= i < logs.len() ==> sorted(#[trigger] logs[i]),
    ensures
        forall|a: int, b: int|
            0 <= a <= b < align(logs).len() ==> ts_le(
                (#[trigger] align(logs)[a]).timestamp,
                (#[trigger] align(logs)[b]).timestamp,
            ),
    decreases total(logs),
{
    if let Some(m) = pending_min(logs) {
        lemma_advance_shrinks(logs, m);
        let adv = advance(logs, m);
        assert forall|i: int| 0 <= i < adv.len() implies sorted(#[trigger] adv[i]) by {
            assert(sorted(logs[i]));
            if takes(logs[i], m) {
                assert forall|a: int, b: int| 0 <= a <= b < adv[i].len() implies ts_le(
                    #[trigger] adv[i][a].0,
                    #[trigger] adv[i][b].0,
                ) by {
                    assert(adv[i][a] == logs[i][a + 1]);
                    assert(adv[i][b] == logs[i][b + 1]);
                }
            }
        }
        assert(bounded_below(adv, m)) by {
            assert forall|i: int, j: int| 0 <= i < adv.len() && 0 <= j < adv[i].len() implies ts_le(
                m,
                #[trigger] adv[i][j].0,
            ) by {
                lemma_min_head_least(logs, logs.len(), i);
                assert(sorted(logs[i]));
                if takes(logs[i], m) {
                    assert(adv[i][j] == logs[i][j + 1]);
                    assert(ts_le(logs[i][0].0, logs[i][j + 1].0));
                } else {
                    assert(ts_le(logs[i][0].0, logs[i][j].0));
                }
            }
        }
        lemma_align_bounded(adv, m);
        lemma_align_sorted(adv);
        let rows = align(logs);
        assert(rows == seq![row_of(logs, m)] + align(adv));
        assert forall|a: int, b: int| 0 <= a <= b < rows.len() implies ts_le(
            (#[trigger] rows[a]).timestamp,
            (#[trigger] rows[b]).timestamp,
        ) by {
            if a == 0 {
                if b > 0 {
                    assert(rows[b] == align(adv)[b - 1]);
                }
            } else {
                assert(rows[a] == align(adv)[a - 1]);
                assert(rows[b] == align(adv)[b - 1]);
            }
        }
    }
}

} // verus!
