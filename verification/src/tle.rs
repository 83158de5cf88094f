//! Reading element-set text into decoded element sets.
//!
//! A pair whose second line is missing is passed over; a pair that is there
//! but does not decode fails the whole text.

use vstd::prelude::*;
use vstd::utf8::encode_utf8;
use vstd::utf8::is_ascii_chars;
use crate::elements::all_ascii;
use crate::elements::check_digits_readable;
use crate::elements::decode_tle;
use crate::elements::decoded_tle;
use crate::elements::set_views;
use crate::elements::ElementSetView;
use crate::elements::OrbitalElementSet;
use crate::elements::DIGIT_ZERO;
use crate::elements::TLE_LINE_BYTES;
use crate::records::orphans_of;
use crate::records::records_of;
use crate::records::scan_records;
use crate::records::RecordSpan;
use crate::text::line_views;
use crate::text::lines_of;
use crate::text::split_lines;

verus! {

/// Why a text could not be read.
#[derive(Debug)]
pub enum TleParseError {
    /// The pair whose first line has this number, counting the non-blank lines
    /// from one, cannot be handed to the decoder: one of its lines holds a
    /// character that is not ASCII, or the place of a check digit holds a
    /// character below `0`.
    InvalidPair { line: usize },
    /// The decoder rejected a pair.
    Sgp4(sgp4::Error),
}

/// What becomes of a decoder's answer: an element set is kept, an error is wrapped.
pub open spec fn admitted(decoded: Result<OrbitalElementSet, sgp4::Error>) -> Result<
    OrbitalElementSet,
    TleParseError,
> {
    match decoded {
        Ok(set) => Ok(set),
        Err(error) => Err(TleParseError::Sgp4(error)),
    }
}

/// The two lines can be handed to the decoder: all their characters are
/// ASCII and the places of the check digits hold characters from `0` upwards.
pub open spec fn decodable(line1: Seq<char>, line2: Seq<char>) -> bool {
    &&& is_ascii_chars(line1)
    &&& is_ascii_chars(line2)
    &&& check_digits_readable(encode_utf8(line1), encode_utf8(line2))
}

/// What becomes of one record of `lines`: the catalogue number that the
/// decoder reads from the pair, under the name of the record; the decoder's
/// error; or, for a pair that cannot be handed to the decoder, the number of
/// its first line.
pub open spec fn record_outcome(lines: Seq<Seq<char>>, span: RecordSpan) -> Result<
    ElementSetView,
    TleParseError,
> {
    if decodable(span.line1(lines), span.line2(lines)) {
        match decoded_tle(
            span.name(lines),
            encode_utf8(span.line1(lines)),
            encode_utf8(span.line2(lines)),
        ) {
            Ok(norad_id) => Ok(ElementSetView { norad_id, name: span.name(lines) }),
            Err(error) => Err(TleParseError::Sgp4(error)),
        }
    } else {
        Err(TleParseError::InvalidPair { line: (span.line + 1) as usize })
    }
}

/// What becomes of a list of records: the element sets of all of them, in
/// order, unless one fails; then the error of the first that fails.
pub open spec fn batch_outcome(lines: Seq<Seq<char>>, spans: Seq<RecordSpan>) -> Result<
    Seq<ElementSetView>,
    TleParseError,
>
    decreases spans.len(),
{
    if spans.len() == 0 {
        Ok(Seq::empty())
    } else {
        match batch_outcome(lines, spans.drop_last()) {
            Ok(sets) => match record_outcome(lines, spans.last()) {
                Ok(set) => Ok(sets.push(set)),
                Err(error) => Err(error),
            },
            Err(error) => Err(error),
        }
    }
}

/// What becomes of a text: the outcome of the records of its lines.
pub open spec fn text_outcome(text: Seq<char>) -> Result<Seq<ElementSetView>, TleParseError> {
    batch_outcome(lines_of(text), records_of(lines_of(text)))
}

/// `result` is `outcome`: the same error, or element sets with the same
/// catalogue numbers and names.
pub open spec fn yields(
    result: Result<Vec<OrbitalElementSet>, TleParseError>,
    outcome: Result<Seq<ElementSetView>, TleParseError>,
) -> bool {
    match result {
        Ok(sets) => outcome == Ok::<Seq<ElementSetView>, TleParseError>(set_views(sets@)),
        Err(error) => outcome == Err::<Seq<ElementSetView>, TleParseError>(error),
    }
}

/// `result` is `outcome`, for one record.
pub open spec fn yields_one(
    result: Result<OrbitalElementSet, TleParseError>,
    outcome: Result<ElementSetView, TleParseError>,
) -> bool {
    match result {
        Ok(set) => outcome == Ok::<ElementSetView, TleParseError>(set@),
        Err(error) => outcome == Err::<ElementSetView, TleParseError>(error),
    }
}

/// Every span stands for a pair of lines of `lines`, with a name line before
/// it where it says so.
pub open spec fn spans_within(lines: Seq<Seq<char>>, spans: Seq<RecordSpan>) -> bool {
    forall|k: int|
        0 <= k < spans.len() ==> (#[trigger] spans[k]).line + 1 < lines.len() && (spans[k].named
            ==> spans[k].line >= 1)
}

/// A failure among the first records is the failure of the whole list.
pub proof fn lemma_first_failure_stands(lines: Seq<Seq<char>>, spans: Seq<RecordSpan>, n: int)
    requires
        0 <= n <= spans.len(),
        batch_outcome(lines, spans.take(n)) is Err,
    ensures
        batch_outcome(lines, spans) == batch_outcome(lines, spans.take(n)),
    decreases spans.len() - n,
{
    if n < spans.len() {
        assert(spans.take(n + 1).drop_last() == spans.take(n));
        lemma_first_failure_stands(lines, spans, n + 1);
    } else {
        assert(spans.take(n) == spans);
    }
}

/// The outcome of a list of records, record by record: it is a list of element
/// sets exactly when every record yields one, and then holds them in order;
/// otherwise it is the error of the first record that fails.
pub proof fn lemma_batch_outcome_by_record(lines: Seq<Seq<char>>, spans: Seq<RecordSpan>)
    ensures
        match batch_outcome(lines, spans) {
            Ok(sets) => {
                &&& sets.len() == spans.len()
                &&& forall|k: int|
                    0 <= k < spans.len() ==> record_outcome(lines, #[trigger] spans[k]) == Ok::<
                        ElementSetView,
                        TleParseError,
                    >(sets[k])
            },
            Err(error) => exists|k: int|
                {
                    &&& 0 <= k < spans.len()
                    &&& record_outcome(lines, #[trigger] spans[k]) == Err::<
                        ElementSetView,
                        TleParseError,
                    >(error)
                    &&& forall|j: int| 0 <= j < k ==> record_outcome(lines, #[trigger] spans[j]) is Ok
                },
        },
    decreases spans.len(),
{
    if spans.len() > 0 {
        let earlier = spans.drop_last();
        lemma_batch_outcome_by_record(lines, earlier);
        match batch_outcome(lines, earlier) {
            Ok(sets) => {
                match record_outcome(lines, spans.last()) {
                    Ok(set) => {
                        let all = sets.push(set);
                        assert forall|k: int| 0 <= k < spans.len() implies record_outcome(
                            lines,
                            #[trigger] spans[k],
                        ) == Ok::<ElementSetView, TleParseError>(all[k]) by {
                            if k < earlier.len() {
                                assert(spans[k] == earlier[k]);
                            }
                        }
                    },
                    Err(error) => {
                        let k = spans.len() - 1;
                        assert forall|j: int| 0 <= j < k implies record_outcome(
                            lines,
                            #[trigger] spans[j],
                        ) is Ok by {
                            assert(spans[j] == earlier[j]);
                        }
                        assert(record_outcome(lines, spans[k]) == Err::<
                            ElementSetView,
                            TleParseError,
                        >(error));
                    },
                }
            },
            Err(error) => {
                let k = choose|k: int|
                    {
                        &&& 0 <= k < earlier.len()
                        &&& record_outcome(lines, #[trigger] earlier[k]) == Err::<
                            ElementSetView,
                            TleParseError,
                        >(error)
                        &&& forall|j: int|
                            0 <= j < k ==> record_outcome(lines, #[trigger] earlier[j]) is Ok
                    };
                assert(spans[k] == earlier[k]);
                assert forall|j: int| 0 <= j < k implies record_outcome(
                    lines,
                    #[trigger] spans[j],
                ) is Ok by {
                    assert(spans[j] == earlier[j]);
                }
            },
        }
    }
}

/// Keeps the element set a decoder returned, or wraps its error.
pub fn admit_decoded(decoded: Result<OrbitalElementSet, sgp4::Error>) -> (r: Result<
    OrbitalElementSet,
    TleParseError,
>)
    ensures
        r == admitted(decoded),
{
    match decoded {
        Ok(set) => Ok(set),
        Err(error) => Err(TleParseError::Sgp4(error)),
    }
}

/// Tells whether the decoder can read the check digits of a pair.
pub fn has_readable_check_digits(line1: &[u8], line2: &[u8]) -> (r: bool)
    ensures
        r == check_digits_readable(line1@, line2@),
{
    if line1.len() == TLE_LINE_BYTES && line2.len() == TLE_LINE_BYTES {
        line1[TLE_LINE_BYTES - 1] >= DIGIT_ZERO && line2[TLE_LINE_BYTES - 1] >= DIGIT_ZERO
    } else {
        true
    }
}

/// The bytes of an ASCII line are all ASCII.
pub proof fn lemma_ascii_line_has_ascii_bytes(line: Seq<char>)
    requires
        is_ascii_chars(line),
    ensures
        all_ascii(encode_utf8(line)),
        encode_utf8(line).len() == line.len(),
{
    vstd::utf8::is_ascii_chars_encode_utf8(line);
    assert forall|i: int| 0 <= i < encode_utf8(line).len() implies #[trigger] encode_utf8(line)[i]
        < 128 by {
        let c = line[i];
        assert('\0' <= c <= '\u{7f}');
        assert(c as u8 == encode_utf8(line)[i]);
        assert(c as u32 <= 0x7f);
    }
}

/// Tells whether a pair of lines can be handed to the decoder.
pub fn is_decodable(line1: &str, line2: &str) -> (r: bool)
    ensures
        r == decodable(line1@, line2@),
{
    line1.is_ascii() && line2.is_ascii() && has_readable_check_digits(
        line1.as_bytes(),
        line2.as_bytes(),
    )
}

/// Decodes the record of `lines` that `span` stands for.
pub fn decode_record(lines: &Vec<String>, span: RecordSpan) -> (r: Result<
    OrbitalElementSet,
    TleParseError,
>)
    requires
        span.line + 1 < lines.len(),
        span.named ==> span.line >= 1,
    ensures
        yields_one(r, record_outcome(line_views(lines@), span)),
{
    let line1 = lines[span.line].as_str();
    let line2 = lines[span.line + 1].as_str();
    if is_decodable(line1, line2) {
        let name = if span.named {
            Some(lines[span.line - 1].clone())
        } else {
            None
        };
        proof {
            lemma_ascii_line_has_ascii_bytes(line1@);
            lemma_ascii_line_has_ascii_bytes(line2@);
        }
        admit_decoded(decode_tle(name, line1.as_bytes(), line2.as_bytes()))
    } else {
        Err(TleParseError::InvalidPair { line: span.line + 1 })
    }
}

/// Decodes the records of `lines` that `spans` stand for, in order, and stops
/// at the first that fails.
pub fn decode_records(lines: &Vec<String>, spans: &Vec<RecordSpan>) -> (r: Result<
    Vec<OrbitalElementSet>,
    TleParseError,
>)
    requires
        spans_within(line_views(lines@), spans@),
    ensures
        yields(r, batch_outcome(line_views(lines@), spans@)),
{
    let ghost shown = line_views(lines@);
    let mut sets: Vec<OrbitalElementSet> = Vec::new();
    let mut i: usize = 0;
    assert(set_views(sets@) == Seq::<ElementSetView>::empty());
    while i < spans.len()
        invariant
            i <= spans.len(),
            shown == line_views(lines@),
            spans_within(shown, spans@),
            sets.len() == i,
            batch_outcome(shown, spans@.take(i as int)) == Ok::<
                Seq<ElementSetView>,
                TleParseError,
            >(set_views(sets@)),
        decreases spans.len() - i,
    {
        proof {
            assert(spans@.take(i as int + 1).drop_last() == spans@.take(i as int));
            assert(spans@.take(i as int + 1).last() == spans@[i as int]);
            assert(spans@[i as int].line + 1 < shown.len());
        }
        let ghost before = set_views(sets@);
        match decode_record(lines, spans[i]) {
            Ok(set) => {
                sets.push(set);
                assert(set_views(sets@) == before.push(set@));
            },
            Err(error) => {
                proof {
                    lemma_first_failure_stands(shown, spans@, i as int + 1);
                }
                return Err(error);
            },
        }
        i += 1;
    }
    proof {
        assert(spans@.take(i as int) == spans@);
    }
    Ok(sets)
}

/// What reading a text gave: the element sets or the error, and the lines
/// that were passed over because no second line followed them.
pub struct TleReading {
    /// The element sets in the order of the text, or why the text failed.
    pub outcome: Result<Vec<OrbitalElementSet>, TleParseError>,
    /// The numbers of the orphaned first lines, counting the non-blank lines
    /// from zero, in order.
    pub orphans: Vec<usize>,
}

/// Reads the content of an element-set file: the element sets it holds, and
/// beside them the orphaned lines, which are passed over and never fail the
/// text.
pub fn read_tle_text(content: &str) -> (reading: TleReading)
    ensures
        yields(reading.outcome, text_outcome(content@)),
        reading.orphans@ == orphans_of(lines_of(content@)),
{
    let lines = split_lines(content);
    let scan = scan_records(&lines);
    proof {
        crate::records::lemma_spans_are_the_heads(
            line_views(lines@),
            line_views(lines@).len() as int,
        );
    }
    let outcome = decode_records(&lines, &scan.records);
    TleReading { outcome, orphans: scan.orphans }
}

/// Parses the content of an element-set file into element sets.
///
/// Both the two-line and the three-line layout are read; lines that belong to
/// no pair are passed over, and so is a first line that no second line
/// follows. The element sets come in the order of the text. A pair that does
/// not decode fails the whole text with the error of the first such pair.
pub fn parse_tle_file_to_elements(content: &str) -> (r: Result<
    Vec<OrbitalElementSet>,
    TleParseError,
>)
    ensures
        yields(r, text_outcome(content@)),
{
    read_tle_text(content).outcome
}

} // verus!
