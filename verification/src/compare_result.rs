//! Aligned log messages: columns of equal length beside a timestamp column.
use vstd::prelude::*;

use crate::text::{decimal_text, push_decimal, push_str, string_of};

verus! {

/// The plain contents of a `CompareResult`.
pub ghost struct AlignedView {
    pub columns: Seq<Seq<Seq<char>>>,
    pub timestamps: Seq<Seq<char>>,
    pub length: nat,
    pub max_timestamp_length: nat,
}

/// The texts of a column.
pub open spec fn column_view(c: Vec<String>) -> Seq<Seq<char>> {
    c@.map_values(|s: String| s@)
}

/// The texts of a sequence of columns.
pub open spec fn columns_view(cs: Seq<Vec<String>>) -> Seq<Seq<Seq<char>>> {
    cs.map_values(|c: Vec<String>| column_view(c))
}

/// The number of characters of the longest text, zero when there is none.
pub open spec fn max_len(ts: Seq<Seq<char>>) -> nat
    decreases ts.len(),
{
    if ts.len() == 0 {
        0
    } else {
        let m = max_len(ts.drop_last());
        if ts.last().len() > m {
            ts.last().len()
        } else {
            m
        }
    }
}

/// The length that every column must have: that of the first, zero when there
/// are no columns.
pub open spec fn expected_length(cs: Seq<Seq<Seq<char>>>) -> nat {
    if cs.len() > 0 {
        cs[0].len()
    } else {
        0
    }
}

/// The first column, from the `i`-th on, whose length is not `n`.
pub open spec fn first_mismatch(cs: Seq<Seq<Seq<char>>>, n: nat, i: nat) -> Option<nat>
    decreases cs.len() - i,
{
    if i >= cs.len() {
        None
    } else if cs[i as int].len() != n {
        Some(i)
    } else {
        first_mismatch(cs, n, i + 1)
    }
}

/// Every column and the timestamp column have the same length, the recorded one,
/// and the recorded widest timestamp is the widest.
pub open spec fn aligned(v: AlignedView) -> bool {
    &&& v.timestamps.len() == v.length
    &&& forall|i: int| 0 <= i < v.columns.len() ==> (#[trigger] v.columns[i]).len() == v.length
    &&& v.max_timestamp_length == max_len(v.timestamps)
}

/// The message `new` gives for a column of the wrong length.
pub open spec fn column_error(index: nat, len: nat, expected: nat) -> Seq<char> {
    "Container "@ + decimal_text(index) + " has length "@ + decimal_text(len) + ", expected "@
        + decimal_text(expected)
}

/// The message `new` gives for a timestamp column of the wrong length.
pub open spec fn timestamp_error(len: nat, expected: nat) -> Seq<char> {
    "Timestamp column has length "@ + decimal_text(len) + ", expected "@ + decimal_text(expected)
}

/// Aligned log messages with equal-length columns and newline placeholders.
pub struct CompareResult {
    containers: Vec<Vec<String>>,
    timestamps: Vec<String>,
    length: usize,
    max_timestamp_length: usize,
}

impl View for CompareResult {
    type V = AlignedView;

    closed spec fn view(&self) -> AlignedView {
        AlignedView {
            columns: columns_view(self.containers@),
            timestamps: self.timestamps@.map_values(|s: String| s@),
            length: self.length as nat,
            max_timestamp_length: self.max_timestamp_length as nat,
        }
    }
}

/// The number of characters of the longest text.
fn widest_text(texts: &Vec<String>) -> (widest: usize)
    ensures
        widest == max_len(texts@.map_values(|s: String| s@)),
{
    let ghost ts = texts@.map_values(|s: String| s@);
    let mut widest: usize = 0;
    let mut k: usize = 0;
    while k < texts.len()
        invariant
            k <= texts@.len(),
            ts == texts@.map_values(|s: String| s@),
            widest == max_len(ts.take(k as int)),
        decreases texts.len() - k,
    {
        let w = texts[k].unicode_len();
        assert(ts.take(k + 1).drop_last() == ts.take(k as int));
        if w > widest {
            widest = w;
        }
        k += 1;
    }
    assert(ts.take(k as int) == ts);
    widest
}

impl CompareResult {
    #[verifier::type_invariant]
    spec fn is_aligned(self) -> bool {
        aligned(self@)
    }

    /// Checks that every column has the length of the first (zero when there are
    /// none) and that the timestamp column has it too.
    pub fn new(containers: Vec<Vec<String>>, timestamps: Vec<String>) -> (r: Result<Self, String>)
        ensures
            ({
                let cs = columns_view(containers@);
                let ts = timestamps@.map_values(|s: String| s@);
                let n = expected_length(cs);
                match r {
                    Ok(res) => {
                        &&& first_mismatch(cs, n, 0) is None
                        &&& ts.len() == n
                        &&& res@ == AlignedView {
                            columns: cs,
                            timestamps: ts,
                            length: n,
                            max_timestamp_length: max_len(ts),
                        }
                        &&& aligned(res@)
                    },
                    Err(msg) => match first_mismatch(cs, n, 0) {
                        Some(i) => msg@ == column_error(i, cs[i as int].len(), n),
                        None => ts.len() != n && msg@ == timestamp_error(ts.len(), n),
                    },
                }
            }),
    {
        let ghost cs = columns_view(containers@);
        let ghost ts = timestamps@.map_values(|s: String| s@);
        let length: usize = if containers.len() > 0 {
            containers[0].len()
        } else {
            0
        };
        assert(length == expected_length(cs));
        let mut index: usize = 0;
        while index < containers.len()
            invariant
                index <= containers@.len(),
                cs == columns_view(containers@),
                length == expected_length(cs),
                first_mismatch(cs, length as nat, 0) == first_mismatch(
                    cs,
                    length as nat,
                    index as nat,
                ),
            decreases containers.len() - index,
        {
            if containers[index].len() != length {
                let mut msg: Vec<char> = Vec::new();
                push_str(&mut msg, "Container ");
                push_decimal(&mut msg, index);
                push_str(&mut msg, " has length ");
                push_decimal(&mut msg, containers[index].len());
                push_str(&mut msg, ", expected ");
                push_decimal(&mut msg, length);
                let text = string_of(&msg, 0, msg.len());
                assert(msg@.subrange(0, msg.len() as int) == msg@);
                return Err(text);
            }
            index += 1;
        }
        if timestamps.len() != length {
            let mut msg: Vec<char> = Vec::new();
            push_str(&mut msg, "Timestamp column has length ");
            push_decimal(&mut msg, timestamps.len());
            push_str(&mut msg, ", expected ");
            push_decimal(&mut msg, length);
            let text = string_of(&msg, 0, msg.len());
            assert(msg@.subrange(0, msg.len() as int) == msg@);
            return Err(text);
        }
        let widest = widest_text(&timestamps);
        proof {
            assert forall|i: int| 0 <= i < cs.len() implies (#[trigger] cs[i]).len() == length by {
                lemma_no_mismatch(cs, length as nat, 0, i);
            }
        }
        Ok(CompareResult { containers, timestamps, length, max_timestamp_length: widest })
    }

    /// Builds a result from columns that all have the length of the timestamp
    /// column.
    pub(crate) fn from_columns(containers: Vec<Vec<String>>, timestamps: Vec<String>) -> (r: Self)
        requires
            forall|i: int| 0 <= i < containers@.len() ==> (#[trigger] containers@[i])@.len() == timestamps@.len(),
        ensures
            r@ == (AlignedView {
                columns: columns_view(containers@),
                timestamps: timestamps@.map_values(|s: String| s@),
                length: timestamps@.len(),
                max_timestamp_length: max_len(timestamps@.map_values(|s: String| s@)),
            }),
    {
        let ghost ts = timestamps@.map_values(|s: String| s@);
        let widest = widest_text(&timestamps);
        let length = timestamps.len();
        CompareResult { containers, timestamps, length, max_timestamp_length: widest }
    }

    /// The message columns, one per log.
    pub fn containers(&self) -> (r: &[Vec<String>])
        ensures
            columns_view(r@) == self@.columns,
            aligned(self@),
    {
        proof {
            use_type_invariant(self);
        }
        self.containers.as_slice()
    }

    /// The number of aligned rows.
    pub fn length(&self) -> (n: usize)
        ensures
            n == self@.length,
            aligned(self@),
    {
        proof {
            use_type_invariant(self);
        }
        self.length
    }

    /// The timestamp column.
    pub fn timestamps(&self) -> (r: &[String])
        ensures
            r@.map_values(|s: String| s@) == self@.timestamps,
            aligned(self@),
    {
        proof {
            use_type_invariant(self);
        }
        self.timestamps.as_slice()
    }

    /// The number of characters of the widest timestamp.
    pub fn max_timestamp_length(&self) -> (n: usize)
        ensures
            n == self@.max_timestamp_length,
            aligned(self@),
    {
        proof {
            use_type_invariant(self);
        }
        self.max_timestamp_length
    }
}

proof fn lemma_no_mismatch(cs: Seq<Seq<Seq<char>>>, n: nat, from: nat, i: int)
    requires
        first_mismatch(cs, n, from) is None,
        from <= i < cs.len(),
    ensures
        cs[i].len() == n,
    decreases i - from,
{
    if from < i {
        lemma_no_mismatch(cs, n, from + 1, i);
    }
}

} // verus!
