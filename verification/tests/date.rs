use std::str::FromStr;

use quantcast_exercise::{Date, ParseError, Timestamp};

#[test]
fn invalid_format() {
    assert_eq!(
        <Date as FromStr>::from_str(""),
        Err(ParseError::InvalidFormat)
    );

    assert_eq!(
        <Date as FromStr>::from_str("1926"),
        Err(ParseError::InvalidFormat)
    );

    assert_eq!(
        <Date as FromStr>::from_str("1926-121"),
        Err(ParseError::InvalidFormat)
    );
}

#[test]
fn invalid_literal() {
    assert!(matches!(
        <Date as FromStr>::from_str("1926-12-1-12"),
        Err(ParseError::InvalidLiteral(_))
    ));

    assert!(matches!(
        <Date as FromStr>::from_str("----"),
        Err(ParseError::InvalidLiteral(_))
    ));

    assert!(matches!(
        <Date as FromStr>::from_str("A-A-A-A"),
        Err(ParseError::InvalidLiteral(_))
    ));
}

#[test]
fn valid_date() {
    assert_eq!(
        <Date as FromStr>::from_str("1926-12-1"),
        Ok(Date {
            year: 1926,
            month: 12,
            day: 1
        })
    );

    assert_eq!(
        <Date as FromStr>::from_str("25-1-32"),
        Ok(Date {
            year: 25,
            month: 1,
            day: 32
        })
    );
}

#[test]
fn valid_timestamp() {
    assert_eq!(
        <Timestamp as FromStr>::from_str("2018-12-09T14:19:00+00:00"),
        Ok(Timestamp {
            date: Date {
                year: 2018,
                month: 12,
                day: 9
            },
            time: "14:19:00+00:00".to_owned()
        })
    );
}
