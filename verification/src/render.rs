//! The texts of the viewer's panes: a timestamp pane and one pane per log, with
//! every row padded to its tallest message so that rows stay level.
use vstd::prelude::*;

use crate::compare_result::{AlignedView, CompareResult, aligned, column_view, columns_view};
use crate::text::{chars_of, lines, split_lines, string_of};

verus! {

/// The texts of the panes.
pub struct Panes {
    pub timestamps: String,
    pub columns: Vec<String>,
}

/// The number of screen lines of a message.
pub open spec fn line_count(t: Seq<char>) -> nat {
    lines(t).len()
}

/// The most screen lines that the first `k` columns need at row `r`.
pub open spec fn tallest(v: AlignedView, r: int, k: nat) -> nat
    decreases k,
{
    if k == 0 {
        0
    } else {
        let a = tallest(v, r, (k - 1) as nat);
        let b = line_count(v.columns[k - 1][r]);
        if a < b {
            b
        } else {
            a
        }
    }
}

/// The screen lines of row `r`: those of its tallest message, at least one.
pub open spec fn row_height(v: AlignedView, r: int) -> nat {
    let t = tallest(v, r, v.columns.len());
    if t < 1 {
        1
    } else {
        t
    }
}

/// Every row is tall enough for the message of each log at that row: no log's
/// message has more screen lines than its row. The row is one line at least,
/// and no taller than that unless some log's message needs exactly its height.
pub proof fn lemma_rows_fit_every_message(v: AlignedView, r: int)
    ensures
        forall|i: int|
            0 <= i < v.columns.len() ==> line_count(#[trigger] v.columns[i][r]) <= row_height(v, r),
        row_height(v, r) >= 1,
        row_height(v, r) == 1 || exists|i: int|
            0 <= i < v.columns.len() && line_count(#[trigger] v.columns[i][r]) == row_height(v, r),
{
    lemma_tallest_bounds(v, r, v.columns.len());
}

proof fn lemma_tallest_bounds(v: AlignedView, r: int, k: nat)
    requires
        k <= v.columns.len(),
    ensures
        forall|i: int| 0 <= i < k ==> line_count(#[trigger] v.columns[i][r]) <= tallest(v, r, k),
        tallest(v, r, k) == 0 || exists|i: int|
            0 <= i < k && line_count(#[trigger] v.columns[i][r]) == tallest(v, r, k),
    decreases k,
{
    if k > 0 {
        lemma_tallest_bounds(v, r, (k - 1) as nat);
        let b = line_count(v.columns[k - 1][r]);
        if tallest(v, r, (k - 1) as nat) < b {
            assert(line_count(v.columns[k - 1][r]) == tallest(v, r, k));
        }
    }
}

pub open spec fn newlines(n: nat) -> Seq<char> {
    Seq::new(n, |i: int| '\n')
}

/// Line `j` of a message, or nothing past its last line.
pub open spec fn line_or_blank(ls: Seq<Seq<char>>, j: int) -> Seq<char> {
    if 0 <= j < ls.len() {
        ls[j]
    } else {
        Seq::empty()
    }
}

/// The first `k` screen lines of a message, each ended by a newline.
pub open spec fn cell_block(t: Seq<char>, k: nat) -> Seq<char>
    decreases k,
{
    if k == 0 {
        Seq::empty()
    } else {
        cell_block(t, (k - 1) as nat) + line_or_blank(lines(t), k - 1) + seq!['\n']
    }
}

/// The timestamp pane for rows `from` up to `to`: each timestamp followed by as
/// many newlines as its row is tall.
pub open spec fn timestamp_pane(v: AlignedView, from: int, to: int) -> Seq<char>
    decreases to - from,
{
    if to <= from {
        Seq::empty()
    } else {
        timestamp_pane(v, from, to - 1) + v.timestamps[to - 1] + newlines(row_height(v, to - 1))
    }
}

/// The pane of log `i` for rows `from` up to `to`.
pub open spec fn column_pane(v: AlignedView, i: int, from: int, to: int) -> Seq<char>
    decreases to - from,
{
    if to <= from {
        Seq::empty()
    } else {
        column_pane(v, i, from, to - 1) + cell_block(v.columns[i][to - 1], row_height(v, to - 1))
    }
}

/// The rows shown from `offset` on, at most `max_rows` of them.
pub open spec fn visible_end(v: AlignedView, offset: int, max_rows: int) -> int {
    if offset + max_rows < v.length {
        offset + max_rows
    } else {
        v.length as int
    }
}

/// The help line under the panes.
pub fn help_line(result: &CompareResult) -> (t: &'static str)
    ensures
        t@ == (if result@.length == 0 {
            "No log entries | q / Esc: quit"@
        } else {
            "Up/Down: vertical | Left/Right: horizontal | q / Esc: quit"@
        }),
{
    if result.length() == 0 {
        "No log entries | q / Esc: quit"
    } else {
        "Up/Down: vertical | Left/Right: horizontal | q / Esc: quit"
    }
}

/// The width of the timestamp pane: its widest timestamp and two borders, at
/// most the widest that a terminal can be.
pub fn timestamp_pane_width(result: &CompareResult) -> (w: u16)
    ensures
        w == (if result@.max_timestamp_length + 2 <= u16::MAX {
            result@.max_timestamp_length + 2int
        } else {
            u16::MAX as int
        }),
{
    let widest = result.max_timestamp_length();
    if widest <= 65533 {
        (widest + 2) as u16
    } else {
        u16::MAX
    }
}

/// The pane texts for the rows from `offset` on, at most `max_rows` of them.
pub fn draw(result: &CompareResult, offset: usize, max_rows: usize) -> (p: Panes)
    ensures
        p.timestamps@ == timestamp_pane(result@, offset as int, visible_end(result@, offset as int, max_rows as int)),
        p.columns@.len() == result@.columns.len(),
        forall|i: int|
            0 <= i < p.columns@.len() ==> (#[trigger] p.columns@[i])@ == column_pane(
                result@,
                i,
                offset as int,
                visible_end(result@, offset as int, max_rows as int),
            ),
{
    let cols = result.containers();
    let stamps = result.timestamps();
    let length = result.length();
    let ghost v = result@;
    let n = cols.len();
    let end: usize = if offset < length && max_rows < length - offset {
        offset + max_rows
    } else {
        length
    };
    assert(offset < length ==> end == visible_end(v, offset as int, max_rows as int));
    let mut ts_text: Vec<char> = Vec::new();
    let mut panes: Vec<Vec<char>> = Vec::new();
    let mut k: usize = 0;
    while k < n
        invariant
            k <= n == cols@.len(),
            panes@.len() == k,
            forall|j: int| 0 <= j < k ==> (#[trigger] panes@[j])@.len() == 0,
        decreases n - k,
    {
        panes.push(Vec::new());
        k += 1;
    }
    let mut r: usize = offset;
    assert(timestamp_pane(v, offset as int, offset as int) == Seq::<char>::empty());
    while r < end
        invariant
            offset <= r <= end || (end <= offset && r == offset),
            end <= length,
            length == v.length,
            n == cols@.len() == v.columns.len(),
            aligned(v),
            columns_view(cols@) == v.columns,
            stamps@.map_values(|s: String| s@) == v.timestamps,
            panes@.len() == n,
            ts_text@ == timestamp_pane(v, offset as int, r as int),
            forall|j: int| 0 <= j < n ==> (#[trigger] panes@[j])@ == column_pane(v, j, offset as int, r as int),
        decreases end - r,
    {
        assert(v.timestamps.len() == length);
        // Split every message of the row into lines and find the tallest.
        let mut row_lines: Vec<Vec<Vec<char>>> = Vec::new();
        let mut height: usize = 0;
        let mut i: usize = 0;
        while i < n
            invariant
                i <= n == cols@.len() == v.columns.len(),
                r < length == v.length,
                aligned(v),
                columns_view(cols@) == v.columns,
                row_lines@.len() == i,
                forall|j: int|
                    0 <= j < i ==> (#[trigger] row_lines@[j])@.map_values(|l: Vec<char>| l@)
                        == lines(v.columns[j][r as int]),
                height == tallest(v, r as int, i as nat),
            decreases n - i,
        {
            assert(columns_view(cols@)[i as int] == column_view(cols@[i as int]));
            assert(v.columns[i as int].len() == length);
            let msg = chars_of(cols[i][r].as_str());
            assert(msg@ == v.columns[i as int][r as int]);
            let ls = split_lines(&msg);
            assert(ls@.map_values(|l: Vec<char>| l@) =~= lines(msg@));
            if ls.len() > height {
                height = ls.len();
            }
            row_lines.push(ls);
            i += 1;
        }
        if height < 1 {
            height = 1;
        }
        assert(height == row_height(v, r as int));
        // The timestamp and its padding.
        let stamp = chars_of(stamps[r].as_str());
        assert(stamp@ == v.timestamps[r as int]);
        let mut t: usize = 0;
        let ghost base = ts_text@ + stamp@;
        extend_chars(&mut ts_text, &stamp);
        while t < height
            invariant
                t <= height,
                ts_text@ == base + newlines(t as nat),
            decreases height - t,
        {
            ts_text.push('\n');
            assert(newlines((t + 1) as nat) == newlines(t as nat).push('\n'));
            t += 1;
        }
        // Each pane gets the row's lines, padded to the row's height.
        let mut i: usize = 0;
        while i < n
            invariant
                i <= n == panes@.len() == row_lines@.len(),
                n == v.columns.len(),
                offset <= r < length == v.length,
                aligned(v),
                height == row_height(v, r as int),
                forall|j: int|
                    0 <= j < n ==> (#[trigger] row_lines@[j])@.map_values(|l: Vec<char>| l@)
                        == lines(v.columns[j][r as int]),
                forall|j: int|
                    0 <= j < i ==> (#[trigger] panes@[j])@ == column_pane(v, j, offset as int, r + 1),
                forall|j: int|
                    i <= j < n ==> (#[trigger] panes@[j])@ == column_pane(v, j, offset as int, r as int),
            decreases n - i,
        {
            assert(v.columns[i as int].len() == length);
            let block = cell_block_exec(&row_lines[i], height, Ghost(v.columns[i as int][r as int]));
            let ghost before = panes@;
            extend_chars(&mut panes[i], &block);
            assert(panes@[i as int]@ == column_pane(v, i as int, offset as int, r + 1));
            assert forall|j: int| 0 <= j < n && j != i implies panes@[j] == before[j] by {}
            i += 1;
        }
        r += 1;
    }
    assert(offset >= length ==> end <= offset && visible_end(v, offset as int, max_rows as int) <= offset);
    let timestamps = string_of(&ts_text, 0, ts_text.len());
    assert(ts_text@.subrange(0, ts_text.len() as int) == ts_text@);
    let mut columns: Vec<String> = Vec::new();
    let mut i: usize = 0;
    while i < n
        invariant
            i <= n == panes@.len(),
            columns@.len() == i,
            forall|j: int| 0 <= j < i ==> (#[trigger] columns@[j])@ == panes@[j]@,
        decreases n - i,
    {
        let text = string_of(&panes[i], 0, panes[i].len());
        assert(panes@[i as int]@.subrange(0, panes@[i as int]@.len() as int) == panes@[i as int]@);
        columns.push(text);
        i += 1;
    }
    Panes { timestamps, columns }
}

/// The first `height` screen lines of a message, given the message's lines.
fn cell_block_exec(ls: &Vec<Vec<char>>, height: usize, Ghost(cell): Ghost<Seq<char>>) -> (b: Vec<char>)
    requires
        ls@.map_values(|l: Vec<char>| l@) == lines(cell),
    ensures
        b@ == cell_block(cell, height as nat),
{
    let mut b: Vec<char> = Vec::new();
    let mut q: usize = 0;
    while q < height
        invariant
            q <= height,
            ls@.map_values(|l: Vec<char>| l@) == lines(cell),
            b@ == cell_block(cell, q as nat),
        decreases height - q,
    {
        let ghost before = b@;
        if q < ls.len() {
            assert(ls@[q as int]@ == lines(cell)[q as int]);
            extend_chars(&mut b, &ls[q]);
        }
        b.push('\n');
        assert(b@ == before + line_or_blank(lines(cell), q as int) + seq!['\n']);
        q += 1;
    }
    b
}

/// Appends the characters of `src`.
fn extend_chars(dst: &mut Vec<char>, src: &Vec<char>)
    ensures
        final(dst)@ == old(dst)@ + src@,
{
    let ghost before = dst@;
    let mut c: usize = 0;
    while c < src.len()
        invariant
            c <= src@.len(),
            dst@ == before + src@.take(c as int),
        decreases src.len() - c,
    {
        dst.push(src[c]);
        assert(src@.take(c + 1) == src@.take(c as int).push(src@[c as int]));
        c += 1;
    }
    assert(src@.take(src.len() as int) == src@);
}

/// The number of newlines in a text.
pub open spec fn newline_count(s: Seq<char>) -> nat
    decreases s.len(),
{
    if s.len() == 0 {
        0
    } else {
        newline_count(s.drop_last()) + if s.last() == '\n' {
            1nat
        } else {
            0nat
        }
    }
}

/// The screen lines of rows `from` up to `to`.
pub open spec fn rows_height(v: AlignedView, from: int, to: int) -> nat
    decreases to - from,
{
    if to <= from {
        0
    } else {
        rows_height(v, from, to - 1) + row_height(v, to - 1)
    }
}

proof fn lemma_newline_count_concat(a: Seq<char>, b: Seq<char>)
    ensures
        newline_count(a + b) == newline_count(a) + newline_count(b),
    decreases b.len(),
{
    if b.len() > 0 {
        lemma_newline_count_concat(a, b.drop_last());
        assert((a + b).drop_last() == a + b.drop_last());
    } else {
        assert(a + b == a);
    }
}

proof fn lemma_newline_free(s: Seq<char>)
    requires
        forall|j: int| 0 <= j < s.len() ==> s[j] != '\n',
    ensures
        newline_count(s) == 0,
    decreases s.len(),
{
    if s.len() > 0 {
        lemma_newline_free(s.drop_last());
    }
}

proof fn lemma_newlines_count(n: nat)
    ensures
        newline_count(newlines(n)) == n,
    decreases n,
{
    if n > 0 {
        lemma_newlines_count((n - 1) as nat);
        assert(newlines(n).drop_last() == newlines((n - 1) as nat));
    }
}

proof fn lemma_find_char_before(s: Seq<char>, j: int)
    requires
        0 <= j < crate::text::find_char(s, '\n'),
        j < s.len(),
    ensures
        s[j] != '\n',
    decreases s.len(),
{
    if j > 0 {
        lemma_find_char_before(s.skip(1), j - 1);
    }
}

proof fn lemma_find_char_le(s: Seq<char>)
    ensures
        crate::text::find_char(s, '\n') <= s.len(),
    decreases s.len(),
{
    if s.len() > 0 && s[0] != '\n' {
        lemma_find_char_le(s.skip(1));
    }
}

/// No line of a text holds a newline.
proof fn lemma_lines_newline_free(t: Seq<char>, j: int)
    requires
        0 <= j < lines(t).len(),
    ensures
        forall|c: int| 0 <= c < lines(t)[j].len() ==> lines(t)[j][c] != '\n',
    decreases t.len(),
{
    let k = crate::text::find_char(t, '\n');
    lemma_find_char_le(t);
    if k >= t.len() {
        assert forall|c: int| 0 <= c < t.len() implies t[c] != '\n' by {
            lemma_find_char_before(t, c);
        }
    } else if j == 0 {
        assert forall|c: int| 0 <= c < lines(t)[0].len() implies lines(t)[0][c] != '\n' by {
            lemma_find_char_before(t, c);
        }
    } else {
        lemma_lines_newline_free(t.skip(k + 1 as int), j - 1);
    }
}

proof fn lemma_cell_block_count(t: Seq<char>, k: nat)
    ensures
        newline_count(cell_block(t, k)) == k,
    decreases k,
{
    if k > 0 {
        lemma_cell_block_count(t, (k - 1) as nat);
        let l = line_or_blank(lines(t), k - 1);
        if 0 <= k - 1 < lines(t).len() {
            lemma_lines_newline_free(t, k - 1);
        }
        lemma_newline_free(l);
        lemma_newline_count_concat(cell_block(t, (k - 1) as nat), l);
        lemma_newline_count_concat(cell_block(t, (k - 1) as nat) + l, seq!['\n']);
        assert(newline_count(seq!['\n']) == 1) by {
            let one = seq!['\n'];
            assert(one.drop_last() =~= Seq::<char>::empty());
            assert(newline_count(one.drop_last()) == 0);
            assert(one.last() == '\n');
        }
    }
}

/// Panes stay level: every message pane takes exactly as many screen lines as
/// the timestamp pane, each row being padded to its tallest message, as long as
/// no timestamp holds a newline.
pub proof fn lemma_panes_level(v: AlignedView, i: int, from: int, to: int)
    requires
        0 <= i < v.columns.len(),
        forall|r: int|
            from <= r < to ==> forall|c: int|
                0 <= c < (#[trigger] v.timestamps[r]).len() ==> v.timestamps[r][c] != '\n',
    ensures
        newline_count(timestamp_pane(v, from, to)) == rows_height(v, from, to),
        newline_count(column_pane(v, i, from, to)) == rows_height(v, from, to),
    decreases to - from,
{
    if to > from {
        lemma_panes_level(v, i, from, to - 1);
        let h = row_height(v, to - 1);
        lemma_newline_free(v.timestamps[to - 1]);
        lemma_newlines_count(h);
        lemma_newline_count_concat(timestamp_pane(v, from, to - 1), v.timestamps[to - 1]);
        lemma_newline_count_concat(
            timestamp_pane(v, from, to - 1) + v.timestamps[to - 1],
            newlines(h),
        );
        lemma_cell_block_count(v.columns[i][to - 1], h);
        lemma_newline_count_concat(column_pane(v, i, from, to - 1), cell_block(v.columns[i][to - 1], h));
    }
}

} // verus!
