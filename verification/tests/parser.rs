use stfcm::elements::find_by_norad_id;
use stfcm::records::scan_records;
use stfcm::records::starts_with;
use stfcm::records::RecordSpan;
use stfcm::text::is_whitespace;
use stfcm::text::split_lines;
use stfcm::tle::decode_record;
use stfcm::tle::has_readable_check_digits;
use stfcm::tle::is_decodable;
use stfcm::tle::parse_tle_file_to_elements;
use stfcm::tle::read_tle_text;
use stfcm::tle::TleParseError;

const ISS_NAME: &str = "ISS (ZARYA)";
const ISS_LINE1: &str = "1 25544U 98067A   08264.51782528 -.00002182  00000-0 -11606-4 0  2927";
const ISS_LINE2: &str = "2 25544  51.6416 247.4627 0006703 130.5360 325.0288 15.72125391563537";
const NOAA_LINE1: &str = "1 33591U 09005A   20194.90514327  .00000030  00000-0  41380-4 0  9995";
const NOAA_LINE2: &str = "2 33591  99.1938 164.4287 0013869 229.1857 130.8111 14.12497962589681";

fn lines_vec(lines: &[&str]) -> Vec<String> {
    lines.iter().map(|l| l.to_string()).collect()
}

#[test]
fn parse_simple_tle() {
    let mut content = String::new();
    content.push_str("ISS (ZARYA)\n");
    content.push_str("1 25544U 98067A   08264.51782528 -.00002182  00000-0 -11606-4 0  2927\n");
    content.push_str("2 25544  51.6416 247.4627 0006703 130.5360 325.0288 15.72125391563537\n");

    let elems = parse_tle_file_to_elements(&content).unwrap();
    assert_eq!(elems.len(), 1);
    assert_eq!(elems[0].norad_id, 25544);
}

#[test]
fn three_line_record_keeps_its_name() {
    let content = format!("{}\n{}\n{}\n", ISS_NAME, ISS_LINE1, ISS_LINE2);
    let elems = parse_tle_file_to_elements(&content).unwrap();
    assert_eq!(elems.len(), 1);
    assert_eq!(elems[0].name.as_deref(), Some("ISS (ZARYA)"));
    assert_eq!(elems[0].elements.object_name.as_deref(), Some("ISS (ZARYA)"));
    assert_eq!(elems[0].elements.norad_id, 25544);
    assert_eq!(elems[0].display_name(), "ISS (ZARYA)");
}

#[test]
fn two_line_record_has_no_name() {
    let content = format!("{}\n{}", ISS_LINE1, ISS_LINE2);
    let elems = parse_tle_file_to_elements(&content).unwrap();
    assert_eq!(elems.len(), 1);
    assert_eq!(elems[0].norad_id, 25544);
    assert!(elems[0].name.is_none());
    assert_eq!(elems[0].display_name(), "");
    let entry = elems[0].to_dto();
    assert_eq!(entry.norad_id, 25544);
    assert_eq!(entry.name, "");
}

#[test]
fn line_after_a_pair_is_no_name_for_the_next() {
    let content = format!("{}\n{}\n{}\n{}\n", ISS_LINE1, ISS_LINE2, NOAA_LINE1, NOAA_LINE2);
    let elems = parse_tle_file_to_elements(&content).unwrap();
    assert_eq!(elems.len(), 2);
    assert_eq!(elems[0].norad_id, 25544);
    assert_eq!(elems[1].norad_id, 33591);
    assert!(elems[1].name.is_none());
}

#[test]
fn records_keep_the_order_of_the_text() {
    let content = format!(
        "NOAA 19\n{}\n{}\nISS (ZARYA)\n{}\n{}\n",
        NOAA_LINE1, NOAA_LINE2, ISS_LINE1, ISS_LINE2
    );
    let elems = parse_tle_file_to_elements(&content).unwrap();
    assert_eq!(elems.len(), 2);
    assert_eq!(elems[0].norad_id, 33591);
    assert_eq!(elems[0].name.as_deref(), Some("NOAA 19"));
    assert_eq!(elems[1].norad_id, 25544);
    assert_eq!(elems[1].name.as_deref(), Some("ISS (ZARYA)"));
}

#[test]
fn duplicates_are_kept() {
    let content = format!("{}\n{}\n{}\n{}\n", ISS_LINE1, ISS_LINE2, ISS_LINE1, ISS_LINE2);
    let elems = parse_tle_file_to_elements(&content).unwrap();
    assert_eq!(elems.len(), 2);
    assert_eq!(elems[0].norad_id, elems[1].norad_id);
}

#[test]
fn trailing_orphan_is_skipped() {
    let content = format!("{}\n{}\n{}\n{}\n", ISS_NAME, ISS_LINE1, ISS_LINE2, NOAA_LINE1);
    let elems = parse_tle_file_to_elements(&content).unwrap();
    assert_eq!(elems.len(), 1);
    assert_eq!(elems[0].norad_id, 25544);
}

#[test]
fn orphan_before_a_pair_is_skipped() {
    let content = format!("{}\n{}\n{}\n", NOAA_LINE1, ISS_LINE1, ISS_LINE2);
    let elems = parse_tle_file_to_elements(&content).unwrap();
    assert_eq!(elems.len(), 1);
    assert_eq!(elems[0].norad_id, 25544);
    assert!(elems[0].name.is_none());
}

#[test]
fn orphan_followed_by_other_text_is_skipped() {
    let content = format!("{}\nsome remark\n{}\n{}\n", NOAA_LINE1, ISS_LINE1, ISS_LINE2);
    let elems = parse_tle_file_to_elements(&content).unwrap();
    assert_eq!(elems.len(), 1);
    assert_eq!(elems[0].name.as_deref(), Some("some remark"));
}

#[test]
fn blank_lines_and_trailing_blanks_are_ignored() {
    let content = format!(
        "\n\n{}   \r\n\r\n{}\t \r\n   \n{} \u{a0}\r\n\n",
        ISS_NAME, ISS_LINE1, ISS_LINE2
    );
    let elems = parse_tle_file_to_elements(&content).unwrap();
    assert_eq!(elems.len(), 1);
    assert_eq!(elems[0].norad_id, 25544);
    assert_eq!(elems[0].name.as_deref(), Some("ISS (ZARYA)"));
}

#[test]
fn empty_text_has_no_records() {
    assert_eq!(parse_tle_file_to_elements("").unwrap().len(), 0);
    assert_eq!(parse_tle_file_to_elements("\n \n\t\n").unwrap().len(), 0);
    assert_eq!(parse_tle_file_to_elements("just a remark\n2 lonely second line").unwrap().len(), 0);
}

#[test]
fn pair_that_does_not_decode_fails_the_whole_text() {
    let bad_line2 = "2 25544  51.6416 247.4627 0006703 130.5360 325.0288 15.72125391563538";
    let content = format!(
        "{}\n{}\n{}\n{}\n{}\n",
        NOAA_LINE1, NOAA_LINE2, ISS_LINE1, bad_line2, ISS_NAME
    );
    match parse_tle_file_to_elements(&content) {
        Err(TleParseError::Sgp4(_)) => {}
        Err(other) => panic!("unexpected error {:?}", other),
        Ok(sets) => panic!("unexpected success with {} sets", sets.len()),
    }
}

#[test]
fn short_pair_fails_the_whole_text() {
    match parse_tle_file_to_elements("1 25544U\n2 25544\n") {
        Err(TleParseError::Sgp4(sgp4::Error::Tle { what, .. })) => {
            assert!(matches!(what, sgp4::ErrorTleWhat::BadLength));
        }
        Err(other) => panic!("unexpected error {:?}", other),
        Ok(sets) => panic!("unexpected success with {} sets", sets.len()),
    }
}

#[test]
fn first_failing_pair_gives_the_error() {
    let unreadable = "1 25544U 98067A   08264.51782528 -.00002182  00000-0 -11606-4 0  292-";
    let content = format!("1 25544U\n2 25544\n{}\n{}\n", unreadable, ISS_LINE2);
    match parse_tle_file_to_elements(&content) {
        Err(TleParseError::Sgp4(_)) => {}
        Err(other) => panic!("unexpected error {:?}", other),
        Ok(sets) => panic!("unexpected success with {} sets", sets.len()),
    }
}

#[test]
fn check_digit_below_zero_is_an_invalid_pair() {
    let unreadable = "1 25544U 98067A   08264.51782528 -.00002182  00000-0 -11606-4 0  292-";
    assert_eq!(unreadable.len(), 69);
    let content = format!("{}\n{}\n{}\n", ISS_NAME, unreadable, ISS_LINE2);
    match parse_tle_file_to_elements(&content) {
        Err(TleParseError::InvalidPair { line }) => assert_eq!(line, 2),
        Err(other) => panic!("unexpected error {:?}", other),
        Ok(sets) => panic!("unexpected success with {} sets", sets.len()),
    }
    let unreadable2 = "2 25544  51.6416 247.4627 0006703 130.5360 325.0288 15.7212539156353.";
    let content = format!("{}\n{}\n", ISS_LINE1, unreadable2);
    match parse_tle_file_to_elements(&content) {
        Err(TleParseError::InvalidPair { line }) => assert_eq!(line, 1),
        Err(other) => panic!("unexpected error {:?}", other),
        Ok(sets) => panic!("unexpected success with {} sets", sets.len()),
    }
}

#[test]
fn readable_check_digits() {
    assert!(has_readable_check_digits(ISS_LINE1.as_bytes(), ISS_LINE2.as_bytes()));
    assert!(has_readable_check_digits(b"1 short-", b"2 short-"));
    let unreadable = "1 25544U 98067A   08264.51782528 -.00002182  00000-0 -11606-4 0  292/";
    assert!(!has_readable_check_digits(unreadable.as_bytes(), ISS_LINE2.as_bytes()));
    assert!(!has_readable_check_digits(ISS_LINE1.as_bytes(), unreadable.as_bytes()));
    assert!(has_readable_check_digits(unreadable.as_bytes(), b"2 short"));
    let colon = "1 25544U 98067A   08264.51782528 -.00002182  00000-0 -11606-4 0  292:";
    assert!(has_readable_check_digits(colon.as_bytes(), ISS_LINE2.as_bytes()));
}

#[test]
fn split_lines_cuts_trims_and_drops() {
    assert_eq!(split_lines(""), Vec::<String>::new());
    assert_eq!(split_lines("\n\n"), Vec::<String>::new());
    assert_eq!(split_lines("a"), lines_vec(&["a"]));
    assert_eq!(split_lines("a \nb"), lines_vec(&["a", "b"]));
    assert_eq!(split_lines("a\r\nb\r\n"), lines_vec(&["a", "b"]));
    assert_eq!(split_lines("  a b  \n \t \n\tc\u{3000}\n"), lines_vec(&["  a b", "\tc"]));
    assert_eq!(split_lines("x\ry\n"), lines_vec(&["x\ry"]));
    assert_eq!(split_lines("é \u{2003}\nz"), lines_vec(&["é", "z"]));
}

#[test]
fn split_lines_agrees_with_the_standard_library() {
    let texts = [
        "ISS\n1 abc  \n2 def\n",
        "a\n\n\nb   \r\n  c\t\n",
        "\r\n\r\n",
        "no newline at end \u{85}",
        " \u{2028}lead\u{2029} \n\u{1680}\n.",
    ];
    for text in texts.iter() {
        let expected: Vec<String> = text
            .lines()
            .map(|l| l.trim_end().to_string())
            .filter(|l| !l.is_empty())
            .collect();
        assert_eq!(split_lines(text), expected);
    }
}

#[test]
fn whitespace_is_the_unicode_property() {
    let mut code: u32 = 0;
    while code <= 0x10FFFF {
        if let Some(c) = char::from_u32(code) {
            assert_eq!(is_whitespace(c), c.is_whitespace(), "U+{:04X}", code);
        }
        code += 1;
    }
}

#[test]
fn starts_with_looks_at_the_first_character() {
    assert!(starts_with("1 25544", '1'));
    assert!(!starts_with("2 25544", '1'));
    assert!(!starts_with("", '1'));
    assert!(!starts_with(" 1", '1'));
    assert!(starts_with("2", '2'));
}

#[test]
fn scan_finds_records_and_orphans() {
    let lines = lines_vec(&["NAME", "1 a", "2 a", "1 orphan", "1 b", "2 b", "2 stray", "1 last"]);
    let scan = scan_records(&lines);
    assert_eq!(
        scan.records,
        vec![RecordSpan { line: 1, named: true }, RecordSpan { line: 4, named: false }]
    );
    assert_eq!(scan.orphans, vec![3, 7]);
}

#[test]
fn scan_of_nothing_finds_nothing() {
    let scan = scan_records(&Vec::new());
    assert!(scan.records.is_empty());
    assert!(scan.orphans.is_empty());
    let scan = scan_records(&lines_vec(&["2 x", "remark", "2 y"]));
    assert!(scan.records.is_empty());
    assert!(scan.orphans.is_empty());
}

#[test]
fn name_line_is_the_line_before_the_pair() {
    let lines = lines_vec(&["1 x", "1 a", "2 a", "2 b", "1 c", "2 c", "N", "1 d", "2 d"]);
    let scan = scan_records(&lines);
    assert_eq!(
        scan.records,
        vec![
            RecordSpan { line: 1, named: false },
            RecordSpan { line: 4, named: false },
            RecordSpan { line: 7, named: true },
        ]
    );
    assert_eq!(scan.orphans, vec![0]);
}

#[test]
fn decode_record_reads_the_lines_of_its_span() {
    let lines = lines_vec(&["remark", ISS_NAME, ISS_LINE1, ISS_LINE2]);
    let set = match decode_record(&lines, RecordSpan { line: 2, named: true }) {
        Ok(set) => set,
        Err(error) => panic!("unexpected error {:?}", error),
    };
    assert_eq!(set.norad_id, 25544);
    assert_eq!(set.name.as_deref(), Some("ISS (ZARYA)"));
    let set = match decode_record(&lines, RecordSpan { line: 2, named: false }) {
        Ok(set) => set,
        Err(error) => panic!("unexpected error {:?}", error),
    };
    assert!(set.name.is_none());
    assert!(set.elements.object_name.is_none());
}

#[test]
fn find_by_norad_id_returns_the_first_match() {
    let content = format!(
        "A\n{}\n{}\nB\n{}\n{}\nC\n{}\n{}\n",
        ISS_LINE1, ISS_LINE2, NOAA_LINE1, NOAA_LINE2, ISS_LINE1, ISS_LINE2
    );
    let sets = parse_tle_file_to_elements(&content).unwrap();
    assert_eq!(sets.len(), 3);
    assert_eq!(find_by_norad_id(&sets, 25544), Some(0));
    assert_eq!(find_by_norad_id(&sets, 33591), Some(1));
    assert_eq!(find_by_norad_id(&sets, 1), None);
    assert_eq!(find_by_norad_id(&Vec::new(), 25544), None);
}

#[test]
fn line_that_is_not_ascii_is_an_invalid_pair() {
    let line1 = "1 2554\u{e9} 98067A   08264.51782528 -.00002182  00000-0 -11606-4 0  2927";
    assert_eq!(line1.len(), 69);
    let content = format!("{}\n{}\n{}\n", ISS_NAME, line1, ISS_LINE2);
    match parse_tle_file_to_elements(&content) {
        Err(TleParseError::InvalidPair { line }) => assert_eq!(line, 2),
        Err(other) => panic!("unexpected error {:?}", other),
        Ok(sets) => panic!("unexpected success with {} sets", sets.len()),
    }
    let line2 = "2 25544  51.6416 247.4627 0006703 130.5360 325.0288 15.7212539156353\u{2167}";
    let content = format!("{}\n{}\n{}\n{}\n", NOAA_LINE1, NOAA_LINE2, ISS_LINE1, line2);
    match parse_tle_file_to_elements(&content) {
        Err(TleParseError::InvalidPair { line }) => assert_eq!(line, 3),
        Err(other) => panic!("unexpected error {:?}", other),
        Ok(sets) => panic!("unexpected success with {} sets", sets.len()),
    }
}

#[test]
fn name_that_is_not_ascii_is_kept() {
    let content = format!("SATELLIT\u{c9} \u{661f}\n{}\n{}\n", ISS_LINE1, ISS_LINE2);
    let elems = parse_tle_file_to_elements(&content).unwrap();
    assert_eq!(elems.len(), 1);
    assert_eq!(elems[0].norad_id, 25544);
    assert_eq!(elems[0].name.as_deref(), Some("SATELLIT\u{c9} \u{661f}"));
}

#[test]
fn decodable_pairs() {
    assert!(is_decodable(ISS_LINE1, ISS_LINE2));
    assert!(is_decodable("1 short", "2 short"));
    assert!(is_decodable("", ""));
    assert!(!is_decodable("1 caf\u{e9}", ISS_LINE2));
    assert!(!is_decodable(ISS_LINE1, "2 \u{80}"));
    let unreadable = "1 25544U 98067A   08264.51782528 -.00002182  00000-0 -11606-4 0  292 ";
    assert_eq!(unreadable.len(), 69);
    assert!(!is_decodable(unreadable, ISS_LINE2));
    assert!(!is_decodable(ISS_LINE1, unreadable));
    assert!(is_decodable("1 ends below zero !", ISS_LINE2));
}

#[test]
fn reading_gives_the_orphans_beside_the_sets() {
    let content = format!(
        "{}\nremark\n{}\n{}\n{}\n\n{}\n",
        NOAA_LINE1, ISS_NAME, ISS_LINE1, ISS_LINE2, NOAA_LINE1
    );
    let reading = read_tle_text(&content);
    assert_eq!(reading.orphans, vec![0, 5]);
    let sets = reading.outcome.unwrap();
    assert_eq!(sets.len(), 1);
    assert_eq!(sets[0].norad_id, 25544);
    assert_eq!(sets[0].name.as_deref(), Some("ISS (ZARYA)"));
}

#[test]
fn reading_gives_the_orphans_beside_the_error() {
    let content = format!("{}\n1 25544U\n2 25544\n{}\n", NOAA_LINE1, ISS_LINE1);
    let reading = read_tle_text(&content);
    assert_eq!(reading.orphans, vec![0, 3]);
    assert!(matches!(reading.outcome, Err(TleParseError::Sgp4(_))));
    let reading = read_tle_text("");
    assert!(reading.orphans.is_empty());
    assert!(reading.outcome.unwrap().is_empty());
}
