//! Recognising element-set records among the lines of a text.
//!
//! A record is a line that begins with `1` directly followed by a line that
//! begins with `2`. The line before the pair, when it begins with neither
//! marker, names the record. A line that begins with `1` and is not followed
//! by a line that begins with `2` is an orphan: it is passed over.

use vstd::prelude::*;
use crate::text::line_views;

verus! {

/// The character that opens the first line of a pair.
pub const LINE_ONE_MARKER: char = '1';

/// The character that opens the second line of a pair.
pub const LINE_TWO_MARKER: char = '2';

/// `line` begins with `marker`.
pub open spec fn begins_with(line: Seq<char>, marker: char) -> bool {
    line.len() > 0 && line[0] == marker
}

/// A record starts at line `i`: that line begins with `1` and the next with `2`.
pub open spec fn is_head(lines: Seq<Seq<char>>, i: int) -> bool {
    &&& 0 <= i
    &&& i + 1 < lines.len()
    &&& begins_with(lines[i], LINE_ONE_MARKER)
    &&& begins_with(lines[i + 1], LINE_TWO_MARKER)
}

/// Line `i` begins with `1` but starts no record.
pub open spec fn is_orphan(lines: Seq<Seq<char>>, i: int) -> bool {
    &&& 0 <= i < lines.len()
    &&& begins_with(lines[i], LINE_ONE_MARKER)
    &&& !is_head(lines, i)
}

/// The line before line `i` exists and begins with neither marker, so it is a name.
pub open spec fn is_named(lines: Seq<Seq<char>>, i: int) -> bool {
    &&& 1 <= i <= lines.len()
    &&& !begins_with(lines[i - 1], LINE_ONE_MARKER)
    &&& !begins_with(lines[i - 1], LINE_TWO_MARKER)
}

/// Where a record stands among the lines: the index of its first line, and
/// whether the line before that one names it.
#[derive(Clone, Copy, Debug, PartialEq, Eq, Structural)]
pub struct RecordSpan {
    pub line: usize,
    pub named: bool,
}

impl RecordSpan {
    /// The name line of the record, if it has one.
    pub open spec fn name(self, lines: Seq<Seq<char>>) -> Option<Seq<char>> {
        if self.named {
            Some(lines[self.line - 1])
        } else {
            None
        }
    }

    /// The first line of the pair.
    pub open spec fn line1(self, lines: Seq<Seq<char>>) -> Seq<char> {
        lines[self.line as int]
    }

    /// The second line of the pair.
    pub open spec fn line2(self, lines: Seq<Seq<char>>) -> Seq<char> {
        lines[self.line + 1]
    }

    /// The span is that of a record of `lines`.
    pub open spec fn within(self, lines: Seq<Seq<char>>) -> bool {
        &&& is_head(lines, self.line as int)
        &&& self.named == is_named(lines, self.line as int)
    }
}

/// The span of the record that starts at line `i`.
pub open spec fn span_at(lines: Seq<Seq<char>>, i: int) -> RecordSpan {
    RecordSpan { line: i as usize, named: is_named(lines, i) }
}

/// The records that start before line `n`, in order.
pub open spec fn spans_before(lines: Seq<Seq<char>>, n: int) -> Seq<RecordSpan>
    decreases n,
{
    if n <= 0 {
        Seq::empty()
    } else if is_head(lines, n - 1) {
        spans_before(lines, n - 1).push(span_at(lines, n - 1))
    } else {
        spans_before(lines, n - 1)
    }
}

/// The orphans before line `n`, in order.
pub open spec fn orphans_before(lines: Seq<Seq<char>>, n: int) -> Seq<usize>
    decreases n,
{
    if n <= 0 {
        Seq::empty()
    } else if is_orphan(lines, n - 1) {
        orphans_before(lines, n - 1).push((n - 1) as usize)
    } else {
        orphans_before(lines, n - 1)
    }
}

/// All records of `lines`, in order.
pub open spec fn records_of(lines: Seq<Seq<char>>) -> Seq<RecordSpan> {
    spans_before(lines, lines.len() as int)
}

/// All orphans of `lines`, in order.
pub open spec fn orphans_of(lines: Seq<Seq<char>>) -> Seq<usize> {
    orphans_before(lines, lines.len() as int)
}

/// What a scan of the lines found.
pub struct Scan {
    /// The records, in the order of the lines.
    pub records: Vec<RecordSpan>,
    /// The indices of the orphaned lines, in order.
    pub orphans: Vec<usize>,
}

/// Tells whether `line` begins with `marker`.
pub fn starts_with(line: &str, marker: char) -> (r: bool)
    ensures
        r == begins_with(line@, marker),
{
    !line.is_empty() && line.get_char(0) == marker
}

/// Finds the records and the orphans among `lines`.
pub fn scan_records(lines: &Vec<String>) -> (scan: Scan)
    ensures
        scan.records@ == records_of(line_views(lines@)),
        scan.orphans@ == orphans_of(line_views(lines@)),
{
    let ghost shown = line_views(lines@);
    let mut records: Vec<RecordSpan> = Vec::new();
    let mut orphans: Vec<usize> = Vec::new();
    let mut i: usize = 0;
    while i < lines.len()
        invariant
            i <= lines.len(),
            shown == line_views(lines@),
            records@ == spans_before(shown, i as int),
            orphans@ == orphans_before(shown, i as int),
        decreases lines.len() - i,
    {
        if starts_with(lines[i].as_str(), LINE_ONE_MARKER) {
            if i + 1 < lines.len() && starts_with(lines[i + 1].as_str(), LINE_TWO_MARKER) {
                let named = i >= 1 && !starts_with(lines[i - 1].as_str(), LINE_ONE_MARKER)
                    && !starts_with(lines[i - 1].as_str(), LINE_TWO_MARKER);
                records.push(RecordSpan { line: i, named });
                proof {
                    assert(is_head(shown, i as int));
                    assert(!is_head(shown, i + 1));
                    assert(!is_orphan(shown, i + 1));
                    assert(spans_before(shown, i + 2) == spans_before(shown, i + 1));
                    assert(orphans_before(shown, i + 2) == orphans_before(shown, i + 1));
                }
                i += 2;
            } else {
                orphans.push(i);
                assert(is_orphan(shown, i as int));
                i += 1;
            }
        } else {
            i += 1;
        }
    }
    Scan { records, orphans }
}

/// Every span of `spans_before` is that of a record that starts before line
/// `n`, every such record has its span there, and the spans stand in the order
/// of the lines.
pub proof fn lemma_spans_are_the_heads(lines: Seq<Seq<char>>, n: int)
    requires
        0 <= n <= lines.len(),
        lines.len() <= usize::MAX,
    ensures
        forall|k: int|
            0 <= k < spans_before(lines, n).len() ==> (#[trigger] spans_before(lines, n)[k]).within(
                lines,
            ) && spans_before(lines, n)[k].line < n,
        forall|i: int|
            0 <= i < n && is_head(lines, i) ==> spans_before(lines, n).contains(
                #[trigger] span_at(lines, i),
            ),
        forall|j: int, k: int|
            0 <= j < k < spans_before(lines, n).len() ==> (#[trigger] spans_before(
                lines,
                n,
            )[j]).line + 1 < (#[trigger] spans_before(lines, n)[k]).line,
    decreases n,
{
    if n > 0 {
        lemma_spans_are_the_heads(lines, n - 1);
        let earlier = spans_before(lines, n - 1);
        let all = spans_before(lines, n);
        if is_head(lines, n - 1) {
            assert(all == earlier.push(span_at(lines, n - 1)));
            assert(all[earlier.len() as int] == span_at(lines, n - 1));
            assert forall|i: int| 0 <= i < n && is_head(lines, i) implies all.contains(
                #[trigger] span_at(lines, i),
            ) by {
                if i < n - 1 {
                    let k = choose|k: int| 0 <= k < earlier.len() && earlier[k] == span_at(lines, i);
                    assert(all[k] == span_at(lines, i));
                }
            }
            assert forall|j: int, k: int| 0 <= j < k < all.len() implies (#[trigger] all[j]).line
                + 1 < (#[trigger] all[k]).line by {
                assert(all[j] == earlier[j]);
                if k < earlier.len() {
                    assert(all[k] == earlier[k]);
                } else {
                    assert(earlier[j].within(lines));
                    assert(earlier[j].line < n - 1);
                    assert(is_head(lines, n - 1));
                }
            }
        }
    }
}

/// Pairing-defect tolerance: a line that begins with `1` and comes last, so
/// that no second line follows it, adds no record and takes none away.
pub proof fn lemma_trailing_orphan_is_skipped(lines: Seq<Seq<char>>, orphan: Seq<char>)
    requires
        begins_with(orphan, LINE_ONE_MARKER),
    ensures
        records_of(lines.push(orphan)) == records_of(lines),
{
    let longer = lines.push(orphan);
    lemma_same_spans(lines, longer, lines.len() as int);
    assert(!is_head(longer, lines.len() as int));
}

/// Lines that agree up to and including line `n` have the same records before line `n`.
proof fn lemma_same_spans(lines: Seq<Seq<char>>, longer: Seq<Seq<char>>, n: int)
    requires
        0 <= n <= lines.len(),
        lines.len() < longer.len(),
        forall|i: int| 0 <= i < lines.len() ==> lines[i] == longer[i],
        !begins_with(longer[lines.len() as int], LINE_TWO_MARKER),
    ensures
        spans_before(longer, n) == spans_before(lines, n),
    decreases n,
{
    if n > 0 {
        lemma_same_spans(lines, longer, n - 1);
        assert(is_named(lines, n - 1) == is_named(longer, n - 1));
        assert(is_head(lines, n - 1) == is_head(longer, n - 1));
    }
}

} // verus!
