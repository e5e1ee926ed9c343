use exploparse::{Kind, Note, Second, Third, Year, LC};

#[test]
fn empty_cell_is_no_record() {
    assert_eq!(LC::maybe_parse("").unwrap(), None);
}

#[test]
fn blank_cell_is_no_record() {
    assert_eq!(LC::maybe_parse("   ").unwrap(), None);
}

#[test]
fn missing_prefix_is_error() {
    let e = LC::maybe_parse("2010").unwrap_err();
    assert!(e.kind == Kind::UnexpectedCharacter || e.kind == Kind::UnexpectedEnd);
    assert_eq!(e.kind, Kind::UnexpectedCharacter);
    assert_eq!(e.at, "2010");
}

#[test]
fn empty_line_parse_is_unexpected_end() {
    let e = LC::parse_lc("").unwrap_err();
    assert_eq!(e.kind, Kind::UnexpectedEnd);
    assert_eq!(e.at, "");
}

#[test]
fn digits_are_no_cutter() {
    // a bare numeric run must not be read as a cutter code
    let e = Third::parse_third("1695").unwrap_err();
    assert_eq!(e.kind, Kind::UnexpectedCharacter);
    let e = Third::parse_third(".1695").unwrap_err();
    assert_eq!(e.kind, Kind::UnexpectedCharacter);
    let e = Third::parse_third("").unwrap_err();
    assert_eq!(e.kind, Kind::UnexpectedEnd);
}

#[test]
fn cutter_reads_dot_and_body() {
    let (rest, t) = Third::parse_third(" .C3 C3723").unwrap();
    assert_eq!(t, Third { has_dot: true, body: String::from("C3") });
    assert_eq!(rest, " C3723");
    let (rest, t) = Third::parse_third("v82 x").unwrap();
    assert_eq!(t, Third { has_dot: false, body: String::from("v82") });
    assert_eq!(rest, " x");
}

#[test]
fn malformed_class_number() {
    // the letter is swallowed by the scan and poisons the number text
    let e = LC::parse_lc("QA 1e5 .B3").unwrap_err();
    assert_eq!(e.kind, Kind::MalformedNumber);
    assert_eq!(e.at, "1e5");
}

#[test]
fn class_number_canonicalized() {
    let (_, lc) = LC::parse_lc("HD 0021.500 .K55").unwrap();
    assert_eq!(lc.second, Second(String::from("21.5")));
    assert_eq!(lc.render(), "HD 21.5 .K55");
}

#[test]
fn class_number_fraction_only() {
    // a fraction with an empty integer part renders with a leading zero
    let (_, lc) = LC::parse_lc("QB .5 .K55").unwrap();
    assert_eq!(lc.second, Second(String::from("0.5")));
    assert_eq!(lc.render(), "QB 0.5 .K55");
}

#[test]
fn year_zero_padded() {
    let (_, lc) = LC::parse_lc("QC 183 .G675 0123").unwrap();
    assert_eq!(lc.year, Some(Year { year: 123, suffix: None }));
    assert_eq!(lc.render(), "QC 183 .G675 0123");
}

#[test]
fn year_recognizer_short_input() {
    let e = Year::parse_year(" 19").unwrap_err();
    assert_eq!(e.kind, Kind::UnexpectedEnd);
    let e = Year::parse_year("19x9").unwrap_err();
    assert_eq!(e.kind, Kind::UnexpectedCharacter);
}

#[test]
fn year_recognizer_suffix() {
    let (rest, y) = Year::parse_year(" 1988b rest").unwrap();
    assert_eq!(y, Year { year: 1988, suffix: Some('b') });
    assert_eq!(rest, " rest");
}

#[test]
fn note_recognizer() {
    let (rest, n) = Note::parse_note("  vol. tg ").unwrap();
    assert_eq!(n, Note(String::from("vol. tg")));
    assert_eq!(rest, "");
    let e = Note::parse_note("   ").unwrap_err();
    assert_eq!(e.kind, Kind::UnexpectedEnd);
}

#[test]
fn one_letter_prefix() {
    let (_, lc) = LC::parse_lc("G 4364 .R6").unwrap();
    assert_eq!(lc.genre.0, "G");
    assert_eq!(lc.render(), "G 4364 .R6");
}

#[test]
fn absorbed_failures_kept_as_causes() {
    // second cutter, year and note all fail and are absorbed: the record
    // succeeds, so no error carries them; a mandatory failure carries none
    let (_, lc) = LC::parse_lc("GB 658 .C43").unwrap();
    assert_eq!(lc.fourth, None);
    assert_eq!(lc.year, None);
    assert_eq!(lc.note, None);
    let e = LC::parse_lc("GB -").unwrap_err();
    assert_eq!(e.kind, Kind::MalformedNumber);
    assert_eq!(e.causes.len(), 0);
}

#[test]
fn round_trip_with_lowercase_cutter() {
    // a lowercase cutter survives the round trip when the class number keeps
    // its fraction dot
    let parsed = LC::maybe_parse("QB 46.5 .v82 2000").unwrap().unwrap();
    let rendered = parsed.render();
    assert_eq!(rendered, "QB 46.5 .v82 2000");
    let again = LC::maybe_parse(&rendered).unwrap().unwrap();
    assert_eq!(parsed, again);
}

#[test]
fn round_trip_blind_spot() {
    // the grammar's known blind spot: a lowercase cutter behind a whole
    // class number is swallowed by the class-number scan when read back
    let parsed = LC::maybe_parse("QB 46 .. v8").unwrap().unwrap();
    assert_eq!(parsed.second, Second(String::from("46")));
    assert_eq!(parsed.third, Third { has_dot: true, body: String::from("v8") });
    let rendered = parsed.render();
    assert_eq!(rendered, "QB 46 .v8");
    let e = LC::maybe_parse(&rendered).unwrap_err();
    assert_eq!(e.kind, Kind::MalformedNumber);
}
