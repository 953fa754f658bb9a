use std::str::FromStr;

use quantcast_exercise::csv::{Csv, CsvParseError};
use quantcast_exercise::num::IntParseError;
use quantcast_exercise::{Date, Log, LogParseError, ParseError, Timestamp};

#[test]
fn header_only_parses_empty() {
    let log = Log::from_str("cookie,timestamp").unwrap();
    assert_eq!(log.0.len(), 0);
}

#[test]
fn header_mismatch_is_invalid_header() {
    assert_eq!(
        Log::from_str("cookie,stamp\nabc,2018-1-1"),
        Err(LogParseError::InvalidHeader)
    );
    assert_eq!(
        Log::from_str("Cookie,timestamp"),
        Err(LogParseError::InvalidHeader)
    );
    assert_eq!(
        Log::from_str(" cookie,timestamp"),
        Err(LogParseError::InvalidHeader)
    );
    assert_eq!(
        Csv::from_str("field one,field two"),
        Err(CsvParseError::InvalidHeader)
    );
}

#[test]
fn empty_input_is_unexpected_eof() {
    assert_eq!(Log::from_str(""), Err(LogParseError::UnexpectedEOF));
    assert_eq!(Csv::from_str(""), Err(CsvParseError::UnexpectedEOF));
}

#[test]
fn short_row_is_fatal() {
    assert_eq!(
        Log::from_str("cookie,timestamp\nonlyonetoken"),
        Err(LogParseError::UnexpectedEOL)
    );
    assert_eq!(
        Log::from_str("cookie,timestamp\na,2018-1-1T\nonlyonetoken\nb,2018-1-1T"),
        Err(LogParseError::UnexpectedEOL)
    );
    assert_eq!(
        Csv::from_str("field one,field two,field three\nx,1"),
        Err(CsvParseError::UnexpectedEOL)
    );
}

#[test]
fn trailing_newline_row_is_short() {
    assert_eq!(
        Log::from_str("cookie,timestamp\na,2018-1-1\n"),
        Err(LogParseError::UnexpectedEOL)
    );
}

#[test]
fn column_error_is_attributed_to_its_column() {
    assert_eq!(
        Log::from_str("cookie,timestamp\nabc,2018-13"),
        Err(LogParseError::TimestampError(ParseError::InvalidFormat))
    );
    assert_eq!(
        Csv::from_str("field one,field two,field three\nx,abc,5"),
        Err(CsvParseError::FieldTwoError(IntParseError::InvalidDigit))
    );
    assert_eq!(
        Csv::from_str("field one,field two,field three\nx,5,-3"),
        Err(CsvParseError::FieldThreeError(IntParseError::InvalidDigit))
    );
    assert_eq!(
        Csv::from_str("field one,field two,field three\nx,5,99999999999999999999999999"),
        Err(CsvParseError::FieldThreeError(IntParseError::PosOverflow))
    );
    assert_eq!(
        Csv::from_str("field one,field two,field three\nx,-99999999999999999999999999,5"),
        Err(CsvParseError::FieldTwoError(IntParseError::NegOverflow))
    );
}

#[test]
fn date_round_trip() {
    let triples: Vec<(u32, u8, u8)> = vec![
        (2018, 12, 9),
        (0, 0, 0),
        (1, 2, 3),
        (25, 13, 99),
        (4294967295, 255, 255),
    ];
    for (year, month, day) in triples {
        let text = format!("{}-{}-{}", year, month, day);
        assert_eq!(
            Date::from_str(&text),
            Ok(Date { year, month, day })
        );
    }
}

#[test]
fn date_literal_errors() {
    assert_eq!(
        Date::from_str("99999999999999999999-1-1"),
        Err(ParseError::InvalidLiteral(IntParseError::PosOverflow))
    );
    assert_eq!(
        Date::from_str("-1-1"),
        Err(ParseError::InvalidLiteral(IntParseError::Empty))
    );
    assert_eq!(
        Date::from_str("1-300-1"),
        Err(ParseError::InvalidLiteral(IntParseError::PosOverflow))
    );
    assert_eq!(Date::from_str("+5-6-7"), Ok(Date { year: 5, month: 6, day: 7 }));
}

#[test]
fn timestamp_splits_at_first_t_only() {
    assert_eq!(
        Timestamp::from_str("1-2-3TxxTyy"),
        Ok(Timestamp {
            date: Date { year: 1, month: 2, day: 3 },
            time: "xxTyy".to_owned()
        })
    );
    assert_eq!(
        Timestamp::from_str("1-2-3T"),
        Ok(Timestamp {
            date: Date { year: 1, month: 2, day: 3 },
            time: "".to_owned()
        })
    );
    assert_eq!(
        Timestamp::from_str("1-2-3"),
        Ok(Timestamp {
            date: Date { year: 1, month: 2, day: 3 },
            time: "".to_owned()
        })
    );
    assert_eq!(
        Timestamp::from_str("Tfoo"),
        Err(ParseError::InvalidFormat)
    );
}

#[test]
fn extra_tokens_are_ignored() {
    let log = Log::from_str("cookie,timestamp\nabc,2018-1-1T10:00,extra,more").unwrap();
    assert_eq!(log.0.len(), 1);
    assert_eq!(log.0[0].cookie.0, "abc");
    assert_eq!(log.0[0].timestamp.date, Date { year: 2018, month: 1, day: 1 });
    assert_eq!(log.0[0].timestamp.time, "10:00");

    let doc = Csv::from_str("field one,field two,field three\na,1,2,3,4").unwrap();
    assert_eq!(doc.0.len(), 1);
    assert_eq!(doc.0[0].field_two, 1);
    assert_eq!(doc.0[0].field_three, 2);
}

#[test]
fn two_record_scenario() {
    let log = Log::from_str(
        "cookie,timestamp\nAtY0laUfhglK3lC7,2018-12-09T14:19:00+00:00\nSAZuXPGUrfbcn5UA,2018-12-08T22:03:00+00:00",
    )
    .unwrap();
    assert_eq!(log.0.len(), 2);
    assert_eq!(log.0[0].cookie.0, "AtY0laUfhglK3lC7");
    assert_eq!(log.0[0].timestamp.date, Date { year: 2018, month: 12, day: 9 });
    assert_eq!(log.0[0].timestamp.time, "14:19:00+00:00");
    assert_eq!(log.0[1].cookie.0, "SAZuXPGUrfbcn5UA");
    assert_eq!(log.0[1].timestamp.date, Date { year: 2018, month: 12, day: 8 });
    assert_eq!(log.0[1].timestamp.time, "22:03:00+00:00");
}

#[test]
fn error_messages() {
    assert_eq!(ParseError::InvalidFormat.message(), "invalid format");
    assert_eq!(
        ParseError::InvalidLiteral(IntParseError::Empty).message(),
        "invalid literal: cannot parse integer from empty string"
    );
    assert_eq!(
        ParseError::InvalidLiteral(IntParseError::InvalidDigit).message(),
        "invalid literal: invalid digit found in string"
    );
}

#[test]
fn signed_field_accepts_plus_sign() {
    let doc = Csv::from_str("field one,field two,field three\nx,+7,8").unwrap();
    assert_eq!(doc.0[0].field_two, 7);
    assert_eq!(doc.0[0].field_three, 8);
}
