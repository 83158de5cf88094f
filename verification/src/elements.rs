//! Decoded orbital element sets.

use vstd::prelude::*;

verus! {

/// The element set as the `sgp4` crate holds it; nothing of it is read here.
#[verifier::external_type_specification]
#[verifier::external_body]
pub struct ExElements(sgp4::Elements);

/// The error of the `sgp4` crate; it is carried, never inspected.
#[verifier::external_type_specification]
#[verifier::external_body]
pub struct ExError(sgp4::Error);

/// Bytes in each line of a two-line element pair.
pub const TLE_LINE_BYTES: usize = 69;

/// The byte `0`, the least check digit.
pub const DIGIT_ZERO: u8 = 48;

/// One satellite's orbital elements: its catalogue number, its name if the
/// source gave one, and the elements themselves, which only the propagator reads.
pub struct OrbitalElementSet {
    pub norad_id: u64,
    pub name: Option<String>,
    pub elements: sgp4::Elements,
}

/// The characters of an optional name.
pub open spec fn name_chars(name: Option<String>) -> Option<Seq<char>> {
    match name {
        Some(text) => Some(text@),
        None => None,
    }
}

/// A satellite as a catalogue lists it.
#[derive(Debug)]
pub struct SatelliteDto {
    pub norad_id: u64,
    pub name: String,
}

impl OrbitalElementSet {
    /// The characters of the name, if there is one.
    pub open spec fn name_view(self) -> Option<Seq<char>> {
        name_chars(self.name)
    }

    /// The characters under which the satellite is listed: its name, or
    /// nothing when it has none.
    pub open spec fn listed_name(self) -> Seq<char> {
        match self.name {
            Some(text) => text@,
            None => Seq::empty(),
        }
    }

    /// The name under which the satellite is listed; empty when it has none.
    pub fn display_name(&self) -> (text: String)
        ensures
            text@ == self.listed_name(),
    {
        match &self.name {
            Some(text) => text.clone(),
            None => String::new(),
        }
    }

    /// The catalogue entry of the satellite.
    pub fn to_dto(&self) -> (entry: SatelliteDto)
        ensures
            entry.norad_id == self.norad_id,
            entry.name@ == self.listed_name(),
    {
        SatelliteDto { norad_id: self.norad_id, name: self.display_name() }
    }
}

/// What of an element set is plain: its catalogue number and its name.
pub struct ElementSetView {
    pub norad_id: u64,
    pub name: Option<Seq<char>>,
}

impl View for OrbitalElementSet {
    type V = ElementSetView;

    open spec fn view(&self) -> ElementSetView {
        ElementSetView { norad_id: self.norad_id, name: name_chars(self.name) }
    }
}

/// The plain contents of a list of element sets.
pub open spec fn set_views(sets: Seq<OrbitalElementSet>) -> Seq<ElementSetView> {
    Seq::new(sets.len(), |i: int| sets[i]@)
}

/// Every byte is an ASCII character.
pub open spec fn all_ascii(line: Seq<u8>) -> bool {
    forall|i: int| 0 <= i < line.len() ==> #[trigger] line[i] < 128
}

/// The last byte of each full-length line is a character from `0` upwards, so
/// that the decoder can read it as a check digit.
pub open spec fn check_digits_readable(line1: Seq<u8>, line2: Seq<u8>) -> bool {
    line1.len() == TLE_LINE_BYTES && line2.len() == TLE_LINE_BYTES ==> line1[TLE_LINE_BYTES - 1]
        >= DIGIT_ZERO && line2[TLE_LINE_BYTES - 1] >= DIGIT_ZERO
}

/// What `sgp4::Elements::from_tle` makes of a name and the bytes of two
/// lines, as far as it is the same wherever it runs: the catalogue number of
/// the element set it returns, or its error.
pub uninterp spec fn decoded_tle(name: Option<Seq<char>>, line1: Seq<u8>, line2: Seq<u8>) -> Result<
    u64,
    sgp4::Error,
>;

/// Decodes one pair of lines with `sgp4::Elements::from_tle`.
///
/// Trusted, not proved: whether the decoder accepts two ASCII lines, the
/// error with which it rejects them and the catalogue number of the element
/// set it returns depend on the name and the two lines alone; an element set
/// it returns carries the name it was given; and it returns, without
/// panicking, whenever the last byte of a 69-byte line is not below `0`
/// (below it, the decoder's check-digit subtraction overflows). Nothing is
/// claimed of the orbital elements themselves. The catalogue number and the
/// name of the result are those of the decoded element set.
#[verifier::external_body]
pub(crate) fn decode_tle(name: Option<String>, line1: &[u8], line2: &[u8]) -> (r: Result<
    OrbitalElementSet,
    sgp4::Error,
>)
    requires
        all_ascii(line1@),
        all_ascii(line2@),
        check_digits_readable(line1@, line2@),
    ensures
        match r {
            Ok(set) => decoded_tle(name_chars(name), line1@, line2@) == Ok::<u64, sgp4::Error>(
                set.norad_id,
            ) && set.name_view() == name_chars(name),
            Err(error) => decoded_tle(name_chars(name), line1@, line2@) == Err::<u64, sgp4::Error>(
                error,
            ),
        },
{
    let elements = sgp4::Elements::from_tle(name, line1, line2)?;
    Ok(OrbitalElementSet { norad_id: elements.norad_id, name: elements.object_name.clone(), elements })
}

/// Finds the first element set with the given catalogue number.
pub fn find_by_norad_id(sets: &Vec<OrbitalElementSet>, norad_id: u64) -> (found: Option<usize>)
    ensures
        match found {
            Some(i) => {
                &&& i < sets.len()
                &&& sets[i as int].norad_id == norad_id
                &&& forall|j: int| 0 <= j < i ==> (#[trigger] sets[j]).norad_id != norad_id
            },
            None => forall|j: int| 0 <= j < sets.len() ==> (#[trigger] sets[j]).norad_id != norad_id,
        },
{
    let mut i: usize = 0;
    while i < sets.len()
        invariant
            i <= sets.len(),
            forall|j: int| 0 <= j < i ==> (#[trigger] sets[j]).norad_id != norad_id,
        decreases sets.len() - i,
    {
        if sets[i].norad_id == norad_id {
            return Some(i);
        }
        i += 1;
    }
    None
}

} // verus!
