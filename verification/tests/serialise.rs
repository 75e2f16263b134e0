use anni::{Anniversary, Date, DiaryErr, ParseFailure};

fn date(y: i32, m: u32, d: u32) -> Date {
    Date::from_ymd_opt(y, m, d).unwrap()
}

#[test]
fn date_text_has_four_two_and_two_digits() {
    assert_eq!(date(2024, 2, 3).to_text(), "2024-02-03");
    assert_eq!(date(2015, 9, 5).to_text(), "2015-09-05");
    assert_eq!(date(1989, 12, 31).to_text(), "1989-12-31");
    assert_eq!(date(0, 1, 1).to_text(), "0000-01-01");
    assert_eq!(date(7, 10, 20).to_text(), "0007-10-20");
    assert_eq!(date(9999, 12, 31).to_text(), "9999-12-31");
}

#[test]
fn date_text_signs_years_out_of_four_digits() {
    assert_eq!(date(-1, 1, 1).to_text(), "-0001-01-01");
    assert_eq!(date(-999, 3, 4).to_text(), "-0999-03-04");
    assert_eq!(date(-9999, 3, 4).to_text(), "-9999-03-04");
    assert_eq!(date(-10000, 3, 4).to_text(), "-10000-03-04");
    assert_eq!(date(10000, 12, 31).to_text(), "+10000-12-31");
    assert_eq!(date(262142, 12, 31).to_text(), "+262142-12-31");
    assert_eq!(date(-262143, 1, 1).to_text(), "-262143-01-01");
}

#[test]
fn anniversary_in_words() {
    let a = Anniversary::from(date(2024, 2, 3), String::from("My birthday"));
    assert_eq!(a.to_text(), "Anniversary date: 2024-02-03 description: My birthday");
}

#[test]
fn record_is_date_space_description() {
    let a = Anniversary::from(date(2024, 2, 3), String::from("My birthday"));
    assert_eq!(a.to_record(), "2024-02-03 My birthday");
}

#[test]
fn line_is_reproduced() {
    for line in ["2024-02-03 My birthday", "1989-02-09 Tom's birthday! Remember.", "2024-02-29  x "] {
        let a = Anniversary::try_from(line).unwrap();
        assert_eq!(a.to_record(), line);
    }
}

#[test]
fn record_reads_back() {
    for (y, m, d) in [(2024, 2, 29), (1, 1, 1), (0, 12, 31), (999, 6, 15), (9999, 12, 31)] {
        for text in ["x", " leading", "trailing ", "two  words", "\u{e9}t\u{e9} \u{2003}"] {
            let a = Anniversary::from(date(y, m, d), String::from(text));
            let b = Anniversary::try_from(&a.to_record()).unwrap();
            assert_eq!(b.date, a.date);
            assert_eq!(b.description, a.description);
        }
    }
}

#[test]
fn record_of_a_year_out_of_four_digits_does_not_read_back() {
    for (y, m, d) in [(-1, 6, 15), (-262143, 1, 1), (10000, 1, 1), (262142, 12, 31)] {
        let a = Anniversary::from(date(y, m, d), String::from("x"));
        match Anniversary::try_from(&a.to_record()) {
            Ok(b) => panic!("read {:?}", b),
            Err(e) => assert_eq!(e, DiaryErr(ParseFailure::MalformedDate)),
        }
    }
}

#[test]
fn record_with_blank_description_does_not_read_back() {
    let a = Anniversary::from(date(2024, 2, 3), String::from(" \t"));
    match Anniversary::try_from(&a.to_record()) {
        Ok(b) => panic!("read {:?}", b),
        Err(e) => assert_eq!(e, DiaryErr(ParseFailure::EmptyDescription)),
    }
}

#[test]
fn unpadded_date_tokens_are_refused() {
    match Anniversary::try_from("2024-2-3 short") {
        Ok(a) => panic!("read {:?}", a),
        Err(e) => assert_eq!(e, DiaryErr(ParseFailure::MalformedDate)),
    }
}
