use exploparse::{Genre, Note, Second, Third, Year, LC};

#[test]
fn test_full() {
    let lc = "TD 224 .C3 C3723 2009";
    let expected = LC {
        genre: Genre(String::from("TD")),
        second: Second(String::from("224")),
        third: Third { has_dot: true, body: String::from("C3") },
        fourth: Some(Third { has_dot: false, body: String::from("C3723") }),
        year: Some(Year { year: 2009, suffix: None }),
        note: None,
    };
    let (_, lc) = LC::parse_lc(lc).unwrap();
    assert_eq!(expected, lc);
}

#[test]
fn test_first() {
    let lc = "GB 658 .C43 2005";
    let expected = LC {
        genre: Genre(String::from("GB")),
        second: Second(String::from("658")),
        third: Third { has_dot: true, body: String::from("C43") },
        fourth: None,
        year: Some(Year { year: 2005, suffix: None }),
        note: None,
    };
    let (_, lc) = LC::parse_lc(lc).unwrap();
    assert_eq!(expected, lc);
}

#[test]
fn test_suffix() {
    let lc = "GC 21.5 .S56 1988b";
    let expected = LC {
        genre: Genre(String::from("GC")),
        second: Second(String::from("21.5")),
        third: Third { has_dot: true, body: String::from("S56") },
        fourth: None,
        year: Some(Year { year: 1988, suffix: Some('b') }),
        note: None,
    };
    let (_, lc) = LC::parse_lc(lc).unwrap();
    assert_eq!(expected, lc);
}

#[test]
fn test_optspace() {
    let lc = "TD224.C3 C3723 2004";
    let expected = LC {
        genre: Genre(String::from("TD")),
        second: Second(String::from("224")),
        third: Third { has_dot: true, body: String::from("C3") },
        fourth: Some(Third { has_dot: false, body: String::from("C3723") }),
        year: Some(Year { year: 2004, suffix: None }),
        note: None,
    };
    let (_, lc) = LC::parse_lc(lc).unwrap();
    assert_eq!(expected, lc);
}

#[test]
fn extra_space() {
    let lc = "QC 920 .Z38 2009 ";
    let expected = LC {
        genre: Genre(String::from("QC")),
        second: Second(String::from("920")),
        third: Third { has_dot: true, body: String::from("Z38") },
        fourth: None,
        year: Some(Year { year: 2009, suffix: None }),
        note: None,
    };
    let (_, lc) = LC::parse_lc(lc).unwrap();
    assert_eq!(expected, lc);
}

#[test]
fn missing_year() {
    let lc = "QC 183 .G675";
    let expected = LC {
        genre: Genre(String::from("QC")),
        second: Second(String::from("183")),
        third: Third { has_dot: true, body: String::from("G675") },
        fourth: None,
        year: None,
        note: None,
    };
    let (_, lc) = LC::parse_lc(lc).unwrap();
    assert_eq!(expected, lc);
}

#[test]
fn double_dot() {
    let lc = "HD 1695 .K55 .V5 2010";
    let expected = LC {
        genre: Genre(String::from("HD")),
        second: Second(String::from("1695")),
        third: Third { has_dot: true, body: String::from("K55") },
        fourth: Some(Third { has_dot: true, body: String::from("V5") }),
        year: Some(Year { year: 2010, suffix: None }),
        note: None,
    };
    let (_, lc) = LC::parse_lc(lc).unwrap();
    assert_eq!(expected, lc);
}

#[test]
fn space_in_float() {
    let lc = "HD 1695 .55 .K55 .V5 2010";
    let expected = LC {
        genre: Genre(String::from("HD")),
        second: Second(String::from("1695.55")),
        third: Third { has_dot: true, body: String::from("K55") },
        fourth: Some(Third { has_dot: true, body: String::from("V5") }),
        year: Some(Year { year: 2010, suffix: None }),
        note: None,
    };
    let (_, lc) = LC::parse_lc(lc).unwrap();
    assert_eq!(expected, lc);
}

#[test]
fn offset_dots() {
    let lc = "HD 1695 .55. K55. V5 2010";
    let expected = LC {
        genre: Genre(String::from("HD")),
        second: Second(String::from("1695.55")),
        third: Third { has_dot: true, body: String::from("K55") },
        fourth: Some(Third { has_dot: true, body: String::from("V5") }),
        year: Some(Year { year: 2010, suffix: None }),
        note: None,
    };
    let (_, lc) = LC::parse_lc(lc).unwrap();
    assert_eq!(expected, lc);
}

#[test]
fn round_trip() {
    let lc = "HD 1695 .55. K55. V5 2010";
    let expected = "HD 1695.55 .K55 .V5 2010";
    let lc = LC::maybe_parse(lc).unwrap().unwrap().render();
    assert_eq!(expected, lc);
}

#[test]
fn round_trip_no_float() {
    let lc = "HD 1695 .K55 .V5 2010";
    let expected = "HD 1695 .K55 .V5 2010";
    let lc = LC::maybe_parse(lc).unwrap().unwrap().render();
    assert_eq!(expected, lc);
}

#[test]
fn trailing_char() {
    let lc = "TD 225 .S25 H26x 2002";
    let expected = LC {
        genre: Genre(String::from("TD")),
        second: Second(String::from("225")),
        third: Third { has_dot: true, body: String::from("S25") },
        fourth: Some(Third { has_dot: false, body: String::from("H26x") }),
        year: Some(Year { year: 2002, suffix: None }),
        note: None,
    };
    let (_, lc) = LC::parse_lc(lc).unwrap();
    assert_eq!(expected, lc);
}

#[test]
fn midstring_char() {
    let lc = "G 4364 .R6 .S6C3 2006";
    let expected = LC {
        genre: Genre(String::from("G")),
        second: Second(String::from("4364")),
        third: Third { has_dot: true, body: String::from("R6") },
        fourth: Some(Third { has_dot: true, body: String::from("S6C3") }),
        year: Some(Year { year: 2006, suffix: None }),
        note: None,
    };
    let (_, lc) = LC::parse_lc(lc).unwrap();
    assert_eq!(expected, lc);
}

#[test]
fn with_note() {
    let lc = "LB 1028 .L43 2000 vol. tg ";
    let expected_round_trip = "LB 1028 .L43 2000 vol. tg";
    let expected = LC {
        genre: Genre(String::from("LB")),
        second: Second(String::from("1028")),
        third: Third { has_dot: true, body: String::from("L43") },
        fourth: None,
        year: Some(Year { year: 2000, suffix: None }),
        note: Some(Note(String::from("vol. tg"))),
    };
    let lc = LC::maybe_parse(lc).unwrap().unwrap();
    assert_eq!(&expected, &lc);
    let round_trip = lc.render();
    assert_eq!(expected_round_trip, round_trip);
}
