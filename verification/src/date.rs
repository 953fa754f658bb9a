use vstd::prelude::*;

use crate::num::{
    all_digits, dec_val, digit_val, is_digit, parse_u32_str, parse_u8_str, spec_parse_uint,
    IntParseError,
};
use crate::text::{contains_char, first_occ, split_once_char};

verus! {

/// A calendar date. Only the `Y-M-D` format is validated; the field values
/// carry no range restriction (month 13 or day 99 are accepted).
#[derive(Debug, Clone, PartialEq, Eq, Hash, Structural)]
pub struct Date {
    pub year: u32,
    pub month: u8,
    pub day: u8,
}

/// Why a date (or timestamp) failed to parse.
#[derive(Debug, Clone, PartialEq, Eq, Structural)]
pub enum ParseError {
    /// A `-` separator required before the final segment is missing.
    InvalidFormat,
    /// A segment is not a valid integer literal of its type.
    InvalidLiteral(IntParseError),
}

/// The text a parse error prints with: the same wording std's integer
/// parsing uses for the wrapped literal errors.
pub open spec fn spec_message(e: ParseError) -> Seq<char> {
    match e {
        ParseError::InvalidFormat => "invalid format"@,
        ParseError::InvalidLiteral(IntParseError::Empty) => (
        "invalid literal: cannot parse integer from empty string"@),
        ParseError::InvalidLiteral(IntParseError::InvalidDigit) => (
        "invalid literal: invalid digit found in string"@),
        ParseError::InvalidLiteral(IntParseError::PosOverflow) => (
        "invalid literal: number too large to fit in target type"@),
        ParseError::InvalidLiteral(IntParseError::NegOverflow) => (
        "invalid literal: number too small to fit in target type"@),
    }
}

impl ParseError {
    /// The human-readable description of this error.
    pub fn message(&self) -> (r: String)
        ensures
            r@ == spec_message(*self),
    {
        match self {
            ParseError::InvalidFormat => "invalid format".to_owned(),
            ParseError::InvalidLiteral(IntParseError::Empty) => {
                "invalid literal: cannot parse integer from empty string".to_owned()
            },
            ParseError::InvalidLiteral(IntParseError::InvalidDigit) => {
                "invalid literal: invalid digit found in string".to_owned()
            },
            ParseError::InvalidLiteral(IntParseError::PosOverflow) => {
                "invalid literal: number too large to fit in target type".to_owned()
            },
            ParseError::InvalidLiteral(IntParseError::NegOverflow) => {
                "invalid literal: number too small to fit in target type".to_owned()
            },
        }
    }
}

impl From<IntParseError> for ParseError {
    fn from(e: IntParseError) -> (r: Self) {
        ParseError::InvalidLiteral(e)
    }
}

impl vstd::std_specs::convert::FromSpecImpl<IntParseError> for ParseError {
    open spec fn obeys_from_spec() -> bool {
        true
    }

    open spec fn from_spec(e: IntParseError) -> Self {
        ParseError::InvalidLiteral(e)
    }
}

/// Parsing a date: split on the first `-` for the year, split the rest on
/// the first `-` for the month, and the remainder is the day. A missing
/// separator is a format error; a segment that is not an integer literal
/// of the field's type is a literal error, found left to right.
pub open spec fn spec_parse_date(s: Seq<char>) -> Result<Date, ParseError> {
    if !contains_char(s, '-') {
        Err(ParseError::InvalidFormat)
    } else {
        let ys = s.take(first_occ(s, '-'));
        let r1 = s.skip(first_occ(s, '-') + 1);
        match spec_parse_uint(ys, u32::MAX as nat) {
            Err(e) => Err(ParseError::InvalidLiteral(e)),
            Ok(y) => {
                if !contains_char(r1, '-') {
                    Err(ParseError::InvalidFormat)
                } else {
                    let ms = r1.take(first_occ(r1, '-'));
                    let ds = r1.skip(first_occ(r1, '-') + 1);
                    match spec_parse_uint(ms, u8::MAX as nat) {
                        Err(e) => Err(ParseError::InvalidLiteral(e)),
                        Ok(m) => match spec_parse_uint(ds, u8::MAX as nat) {
                            Err(e) => Err(ParseError::InvalidLiteral(e)),
                            Ok(d) => Ok(
                                Date { year: y as u32, month: m as u8, day: d as u8 },
                            ),
                        },
                    }
                }
            },
        }
    }
}

impl Date {
    /// Parses `"Y-M-D"`; exactly `spec_parse_date` on the input's characters.
    pub fn from_str(data: &str) -> (r: Result<Date, ParseError>)
        ensures
            r == spec_parse_date(data@),
    {
        match split_once_char(data, '-') {
            None => Err(ParseError::InvalidFormat),
            Some((ys, rest)) => match parse_u32_str(ys) {
                Err(e) => Err(ParseError::from(e)),
                Ok(year) => match split_once_char(rest, '-') {
                    None => Err(ParseError::InvalidFormat),
                    Some((ms, ds)) => match parse_u8_str(ms) {
                        Err(e) => Err(ParseError::from(e)),
                        Ok(month) => match parse_u8_str(ds) {
                            Err(e) => Err(ParseError::from(e)),
                            Ok(day) => Ok(Date { year, month, day }),
                        },
                    },
                },
            },
        }
    }
}

impl core::str::FromStr for Date {
    type Err = ParseError;

    fn from_str(s: &str) -> Result<Date, ParseError> {
        Date::from_str(s)
    }
}

/// The mathematical content of a `Timestamp`: a date and the raw time text.
#[verifier::ext_equal]
pub struct TimestampView {
    pub date: Date,
    pub time: Seq<char>,
}

/// A timestamp: a date, and whatever followed the first `T` kept verbatim.
#[derive(Debug, Clone, Hash)]
pub struct Timestamp {
    pub date: Date,
    pub time: String,
}

impl View for Timestamp {
    type V = TimestampView;

    open spec fn view(&self) -> TimestampView {
        TimestampView { date: self.date, time: self.time@ }
    }
}

impl PartialEq for Timestamp {
    fn eq(&self, other: &Timestamp) -> (r: bool) {
        self.date == other.date && crate::text::str_eq(self.time.as_str(), other.time.as_str())
    }
}

impl vstd::std_specs::cmp::PartialEqSpecImpl for Timestamp {
    open spec fn obeys_eq_spec() -> bool {
        true
    }

    open spec fn eq_spec(&self, other: &Timestamp) -> bool {
        self@ == other@
    }
}

/// Parsing a timestamp: the text before the first `T` (or all of it, if
/// there is no `T`) is parsed as a date; the text after the first `T` (or
/// the empty string) is kept verbatim, unvalidated.
pub open spec fn spec_parse_timestamp(s: Seq<char>) -> Result<TimestampView, ParseError> {
    let dpart = if contains_char(s, 'T') {
        s.take(first_occ(s, 'T'))
    } else {
        s
    };
    let tpart = if contains_char(s, 'T') {
        s.skip(first_occ(s, 'T') + 1)
    } else {
        Seq::<char>::empty()
    };
    match spec_parse_date(dpart) {
        Err(e) => Err(e),
        Ok(d) => Ok(TimestampView { date: d, time: tpart }),
    }
}

impl Timestamp {
    /// Parses a timestamp; exactly `spec_parse_timestamp` on the input's
    /// characters.
    pub fn from_str(s: &str) -> (r: Result<Timestamp, ParseError>)
        ensures
            match r {
                Ok(t) => spec_parse_timestamp(s@) == Ok::<TimestampView, ParseError>(t@),
                Err(e) => spec_parse_timestamp(s@) == Err::<TimestampView, ParseError>(e),
            },
    {
        match split_once_char(s, 'T') {
            Some((dpart, tpart)) => match Date::from_str(dpart) {
                Err(e) => Err(e),
                Ok(date) => Ok(Timestamp { date, time: tpart.to_owned() }),
            },
            None => match Date::from_str(s) {
                Err(e) => Err(e),
                Ok(date) => Ok(Timestamp { date, time: String::new() }),
            },
        }
    }
}

impl core::str::FromStr for Timestamp {
    type Err = ParseError;

    fn from_str(s: &str) -> Result<Timestamp, ParseError> {
        Timestamp::from_str(s)
    }
}

/// The canonical decimal digits of `n`, most significant first.
pub open spec fn dec_str(n: nat) -> Seq<char>
    decreases n,
{
    if n < 10 {
        seq![digit_char(n % 10)]
    } else {
        dec_str(n / 10).push(digit_char(n % 10))
    }
}

/// The digit character for a value below ten.
pub open spec fn digit_char(d: nat) -> char {
    if d == 0 {
        '0'
    } else if d == 1 {
        '1'
    } else if d == 2 {
        '2'
    } else if d == 3 {
        '3'
    } else if d == 4 {
        '4'
    } else if d == 5 {
        '5'
    } else if d == 6 {
        '6'
    } else if d == 7 {
        '7'
    } else if d == 8 {
        '8'
    } else {
        '9'
    }
}

/// The canonical decimal digits of `n` are nonempty digits whose value is
/// `n` again.
pub proof fn lemma_dec_str(n: nat)
    ensures
        dec_str(n).len() >= 1,
        all_digits(dec_str(n)),
        dec_val(dec_str(n)) == n,
    decreases n,
{
    vstd::arithmetic::div_mod::lemma_fundamental_div_mod(n as int, 10);
    if n < 10 {
        assert(is_digit(dec_str(n)[0]));
        assert(dec_val(dec_str(n)) == 10 * dec_val(dec_str(n).drop_last()) + digit_val(
            dec_str(n).last(),
        ));
        assert(dec_str(n).drop_last() =~= Seq::<char>::empty());
        assert(digit_val(digit_char(n % 10)) == n);
    } else {
        lemma_dec_str(n / 10);
        let w = dec_str(n / 10);
        let c = digit_char(n % 10);
        assert(w.push(c).drop_last() =~= w);
        assert(w.push(c).last() == c);
        assert(is_digit(c));
        assert(all_digits(w.push(c)));
        assert(digit_val(c) == n % 10);
        assert(dec_val(w.push(c)) == 10 * (n / 10) + n % 10);
    }
}

/// Formatting any `(year, month, day)` triple as `"Y-M-D"` in canonical
/// decimal and parsing it back yields the same date, with no range
/// restriction on month or day.
pub proof fn lemma_date_round_trip(y: u32, m: u8, d: u8)
    ensures
        spec_parse_date(
            dec_str(y as nat) + seq!['-'] + dec_str(m as nat) + seq!['-'] + dec_str(d as nat),
        ) == Ok::<Date, ParseError>(Date { year: y, month: m, day: d }),
{
    let a = dec_str(y as nat);
    let b = dec_str(m as nat);
    let c = dec_str(d as nat);
    lemma_dec_str(y as nat);
    lemma_dec_str(m as nat);
    lemma_dec_str(d as nat);
    let s = a + seq!['-'] + b + seq!['-'] + c;
    assert(s[a.len() as int] == '-');
    assert forall|j: int| 0 <= j < a.len() implies s[j] != '-' by {
        assert(s[j] == a[j]);
        assert(is_digit(a[j]));
    }
    crate::text::lemma_first_occ_unique(s, '-', a.len() as int);
    assert(s.take(a.len() as int) =~= a);
    let r1 = s.skip(a.len() as int + 1);
    assert(r1 =~= b + seq!['-'] + c);
    assert(a[0] != '+');
    assert(spec_parse_uint(a, u32::MAX as nat) == Ok::<nat, IntParseError>(y as nat));
    assert(r1[b.len() as int] == '-');
    assert forall|j: int| 0 <= j < b.len() implies r1[j] != '-' by {
        assert(r1[j] == b[j]);
        assert(is_digit(b[j]));
    }
    crate::text::lemma_first_occ_unique(r1, '-', b.len() as int);
    assert(r1.take(b.len() as int) =~= b);
    assert(r1.skip(b.len() as int + 1) =~= c);
    assert(b[0] != '+');
    assert(spec_parse_uint(b, u8::MAX as nat) == Ok::<nat, IntParseError>(m as nat));
    assert(c[0] != '+');
    assert(spec_parse_uint(c, u8::MAX as nat) == Ok::<nat, IntParseError>(d as nat));
}

/// A string containing a `T` splits at its first `T` alone: the part
/// before it must parse as a date, or the whole parse fails with that
/// date's error; the part after it, further `T`s included, is kept
/// verbatim as the time.
pub proof fn lemma_timestamp_split(s: Seq<char>)
    requires
        contains_char(s, 'T'),
    ensures
        spec_parse_date(s.take(first_occ(s, 'T'))) matches Ok(d) ==> spec_parse_timestamp(s)
            == Ok::<TimestampView, ParseError>(
            (TimestampView { date: d, time: s.skip(first_occ(s, 'T') + 1) }),
        ),
        spec_parse_date(s.take(first_occ(s, 'T'))) matches Err(e) ==> spec_parse_timestamp(s)
            == Err::<TimestampView, ParseError>(e),
{
}

} // verus!
