use vstd::prelude::*;

pub mod csv;
pub mod date;
pub mod most_active_cookie;
pub mod num;
pub mod text;

pub use date::{Date, ParseError, Timestamp};

use date::{spec_parse_timestamp, TimestampView};
use text::{spec_lines, spec_split, str_eq, views_of_strs};

verus! {

/// An opaque cookie identifier; wraps the raw field text unchanged.
#[derive(Debug, Clone, Hash)]
pub struct Cookie(pub String);

/// The error type of cookie parsing. Wrapping raw text can never fail, so
/// no value of this type is ever produced: the single marker variant stands
/// in for an uninhabited type, and every contract rules it out.
#[derive(Debug, Clone, Hash, PartialEq, Eq, Structural)]
pub enum CookieError {
    Impossible,
}

impl View for Cookie {
    type V = Seq<char>;

    open spec fn view(&self) -> Seq<char> {
        self.0@
    }
}

impl PartialEq for Cookie {
    fn eq(&self, other: &Cookie) -> (r: bool) {
        str_eq(self.0.as_str(), other.0.as_str())
    }
}

impl vstd::std_specs::cmp::PartialEqSpecImpl for Cookie {
    open spec fn obeys_eq_spec() -> bool {
        true
    }

    open spec fn eq_spec(&self, other: &Cookie) -> bool {
        self@ == other@
    }
}

impl Cookie {
    /// Wraps the raw text unchanged; never fails.
    pub fn from_str(s: &str) -> (r: Result<Cookie, CookieError>)
        ensures
            r matches Ok(c) && c@ == s@,
    {
        Ok(Cookie(s.to_owned()))
    }
}

impl core::str::FromStr for Cookie {
    type Err = CookieError;

    fn from_str(s: &str) -> Result<Cookie, CookieError> {
        Cookie::from_str(s)
    }
}

/// The mathematical content of one parsed log row.
#[verifier::ext_equal]
pub struct LogEntryView {
    pub cookie: Seq<char>,
    pub timestamp: TimestampView,
}

/// One parsed row of the cookie log: one field per schema column, in
/// declared order.
#[derive(Debug, Clone)]
pub struct LogEntry {
    pub cookie: Cookie,
    pub timestamp: Timestamp,
}

impl View for LogEntry {
    type V = LogEntryView;

    open spec fn view(&self) -> LogEntryView {
        LogEntryView { cookie: self.cookie@, timestamp: self.timestamp@ }
    }
}

impl PartialEq for LogEntry {
    fn eq(&self, other: &LogEntry) -> (r: bool) {
        let r = self.cookie == other.cookie && self.timestamp == other.timestamp;
        proof {
            if self.cookie@ == other.cookie@ && self.timestamp@ == other.timestamp@ {
                assert(self@ =~= other@);
            }
        }
        r
    }
}

impl vstd::std_specs::cmp::PartialEqSpecImpl for LogEntry {
    open spec fn obeys_eq_spec() -> bool {
        true
    }

    open spec fn eq_spec(&self, other: &LogEntry) -> bool {
        self@ == other@
    }
}

/// The views of a sequence of parsed log rows.
pub open spec fn entries_view(v: Seq<LogEntry>) -> Seq<LogEntryView> {
    v.map_values(|e: LogEntry| e@)
}

/// A successfully parsed cookie log: the ordered sequence of its rows.
#[derive(Debug, Clone)]
pub struct Log(pub Vec<LogEntry>);

impl View for Log {
    type V = Seq<LogEntryView>;

    open spec fn view(&self) -> Seq<LogEntryView> {
        entries_view(self.0@)
    }
}

impl PartialEq for Log {
    fn eq(&self, other: &Log) -> (r: bool) {
        if self.0.len() != other.0.len() {
            proof {
                assert(self@.len() != other@.len());
            }
            return false;
        }
        let n = self.0.len();
        let mut i: usize = 0;
        while i < n
            invariant
                i <= n,
                n == self.0@.len(),
                n == other.0@.len(),
                forall|j: int| 0 <= j < i ==> self@[j] == other@[j],
            decreases n - i,
        {
            if !(self.0[i] == other.0[i]) {
                proof {
                    assert(self@[i as int] != other@[i as int]);
                }
                return false;
            }
            i = i + 1;
        }
        proof {
            assert(self@ =~= other@);
        }
        true
    }
}

impl vstd::std_specs::cmp::PartialEqSpecImpl for Log {
    open spec fn obeys_eq_spec() -> bool {
        true
    }

    open spec fn eq_spec(&self, other: &Log) -> bool {
        self@ == other@
    }
}

/// How parsing a cookie log can fail: the three structural cases, then one
/// case per schema column, carrying that column's own parse error.
#[derive(Debug, Clone, PartialEq, Eq, Structural)]
pub enum LogParseError {
    InvalidHeader,
    UnexpectedEOF,
    UnexpectedEOL,
    CookieError(CookieError),
    TimestampError(ParseError),
}

/// The literal header text the first line must equal: the column labels
/// joined with `,` (the source format also compares both sides with a `,`
/// sentinel appended, which makes no observable difference).
pub open spec fn log_header() -> Seq<char> {
    "cookie,timestamp"@
}

/// Parsing one data row: split on `,`, then take one token per schema
/// column in declared order. A missing token ends the whole parse; the
/// cookie column wraps its token verbatim and cannot fail; a timestamp
/// token that fails to parse is charged to the timestamp column. Extra
/// tokens beyond the declared columns are ignored.
pub open spec fn spec_parse_log_row(line: Seq<char>) -> Result<LogEntryView, LogParseError> {
    let toks = spec_split(line, ',');
    if toks.len() < 2 {
        Err(LogParseError::UnexpectedEOL)
    } else {
        match spec_parse_timestamp(toks[1]) {
            Err(e) => Err(LogParseError::TimestampError(e)),
            Ok(ts) => Ok(LogEntryView { cookie: toks[0], timestamp: ts }),
        }
    }
}

/// Parsing the data rows in order, failing fast on the first bad row.
pub open spec fn spec_parse_rows(rows: Seq<Seq<char>>) -> Result<Seq<LogEntryView>, LogParseError>
    decreases rows.len(),
{
    if rows.len() == 0 {
        Ok(Seq::<LogEntryView>::empty())
    } else {
        match spec_parse_log_row(rows[0]) {
            Err(e) => Err(e),
            Ok(rec) => match spec_parse_rows(rows.drop_first()) {
                Err(e) => Err(e),
                Ok(rest) => Ok(seq![rec] + rest),
            },
        }
    }
}

/// Parsing a whole document: no lines at all is `UnexpectedEOF`; a first
/// line that is not exactly the expected header is `InvalidHeader`; then
/// every remaining line, a trailing empty one included, parses as a row.
pub open spec fn spec_parse_log(s: Seq<char>) -> Result<Seq<LogEntryView>, LogParseError> {
    let ls = spec_lines(s);
    if ls.len() == 0 {
        Err(LogParseError::UnexpectedEOF)
    } else if ls[0] != log_header() {
        Err(LogParseError::InvalidHeader)
    } else {
        spec_parse_rows(ls.drop_first())
    }
}

/// Parses one data line of the log.
fn parse_log_row(line: &str) -> (r: Result<LogEntry, LogParseError>)
    ensures
        match r {
            Ok(rec) => spec_parse_log_row(line@) == Ok::<LogEntryView, LogParseError>(rec@),
            Err(e) => spec_parse_log_row(line@) == Err::<LogEntryView, LogParseError>(e),
        },
{
    let toks = text::split_char(line, ',');
    proof {
        text::lemma_split_len(line@, ',');
        assert(toks@.len() == spec_split(line@, ',').len());
    }
    let cookie = match Cookie::from_str(toks[0]) {
        Ok(c) => c,
        Err(_) => vstd::pervasive::unreached(),
    };
    if toks.len() < 2 {
        return Err(LogParseError::UnexpectedEOL);
    }
    match Timestamp::from_str(toks[1]) {
        Err(e) => Err(LogParseError::TimestampError(e)),
        Ok(ts) => {
            let rec = LogEntry { cookie, timestamp: ts };
            proof {
                assert(rec@ =~= (LogEntryView {
                    cookie: spec_split(line@, ',')[0],
                    timestamp: rec.timestamp@,
                }));
            }
            Ok(rec)
        },
    }
}

impl Log {
    /// Parses a whole cookie-log document; exactly `spec_parse_log` on the
    /// input's characters.
    pub fn from_str(s: &str) -> (r: Result<Log, LogParseError>)
        ensures
            match r {
                Ok(log) => spec_parse_log(s@) == Ok::<Seq<LogEntryView>, LogParseError>(log@),
                Err(e) => spec_parse_log(s@) == Err::<Seq<LogEntryView>, LogParseError>(e),
            },
    {
        if s.is_empty() {
            return Err(LogParseError::UnexpectedEOF);
        }
        let lines = text::split_char(s, '\n');
        proof {
            text::lemma_split_len(s@, '\n');
            assert(lines@.len() == spec_lines(s@).len());
            assert(lines@[0]@ == spec_lines(s@)[0]);
        }
        if !str_eq(lines[0], "cookie,timestamp") {
            return Err(LogParseError::InvalidHeader);
        }
        let ghost rows = spec_lines(s@).drop_first();
        let mut entries: Vec<LogEntry> = Vec::new();
        let mut k: usize = 1;
        proof {
            assert(rows.skip(0) =~= rows);
            assert(entries_view(entries@) + spec_parse_rows(rows)->Ok_0 =~= spec_parse_rows(
                rows,
            )->Ok_0);
        }
        while k < lines.len()
            invariant
                1 <= k <= lines@.len(),
                views_of_strs(lines@) == spec_split(s@, '\n'),
                s@.len() > 0,
                spec_lines(s@)[0] == log_header(),
                rows == spec_lines(s@).drop_first(),
                rows.len() == lines@.len() - 1,
                match spec_parse_rows(rows.skip(k - 1)) {
                    Ok(rest) => spec_parse_rows(rows) == Ok::<Seq<LogEntryView>, LogParseError>(
                        entries_view(entries@) + rest,
                    ),
                    Err(e) => spec_parse_rows(rows) == Err::<Seq<LogEntryView>, LogParseError>(e),
                },
            decreases lines@.len() - k,
        {
            let ghost tail = rows.skip(k - 1);
            proof {
                assert(tail.len() == rows.len() - (k - 1));
                assert(tail[0] == rows[k - 1]);
                assert(rows[k - 1] == spec_lines(s@)[k as int]);
                assert(lines@[k as int]@ == spec_lines(s@)[k as int]);
                assert(tail.drop_first() =~= rows.skip(k as int));
            }
            match parse_log_row(lines[k]) {
                Err(e) => {
                    proof {
                        assert(spec_parse_rows(tail) == Err::<Seq<LogEntryView>, LogParseError>(
                            e,
                        ));
                    }
                    return Err(e);
                },
                Ok(rec) => {
                    proof {
                        assert(entries_view(entries@.push(rec)) =~= entries_view(entries@) + seq![
                            rec@,
                        ]);
                        if spec_parse_rows(rows.skip(k as int)) is Ok {
                            let rest2 = spec_parse_rows(rows.skip(k as int))->Ok_0;
                            assert(spec_parse_rows(tail) == Ok::<
                                Seq<LogEntryView>,
                                LogParseError,
                            >(seq![rec@] + rest2));
                            assert(entries_view(entries@) + (seq![rec@] + rest2) =~= (entries_view(
                                entries@,
                            ) + seq![rec@]) + rest2);
                        }
                    }
                    entries.push(rec);
                    k = k + 1;
                },
            }
        }
        proof {
            assert(rows.skip(k - 1) =~= Seq::<Seq<char>>::empty());
            assert(spec_parse_rows(rows.skip(k - 1)) == Ok::<Seq<LogEntryView>, LogParseError>(
                Seq::<LogEntryView>::empty(),
            ));
            assert(entries_view(entries@) + Seq::<LogEntryView>::empty() =~= entries_view(
                entries@,
            ));
        }
        Ok(Log(entries))
    }
}

impl core::str::FromStr for Log {
    type Err = LogParseError;

    fn from_str(s: &str) -> Result<Log, LogParseError> {
        Log::from_str(s)
    }
}

/// The first bad row ends the whole parse with its own error, whatever
/// comes after it.
proof fn lemma_rows_error_at(rows: Seq<Seq<char>>, k: int)
    requires
        0 <= k < rows.len(),
        forall|j: int| 0 <= j < k ==> spec_parse_log_row(rows[j]) is Ok,
        spec_parse_log_row(rows[k]) is Err,
    ensures
        spec_parse_rows(rows) == Err::<Seq<LogEntryView>, LogParseError>(
            spec_parse_log_row(rows[k])->Err_0,
        ),
    decreases k,
{
    if k == 0 {
    } else {
        assert(spec_parse_log_row(rows[0]) is Ok);
        assert forall|j: int| 0 <= j < k - 1 implies spec_parse_log_row(
            rows.drop_first()[j],
        ) is Ok by {
            assert(rows.drop_first()[j] == rows[j + 1]);
        }
        assert(rows.drop_first()[k - 1] == rows[k]);
        lemma_rows_error_at(rows.drop_first(), k - 1);
    }
}

/// Header exactness: a document with at least one line whose first line is
/// not exactly the expected header fails with `InvalidHeader`; a document
/// that is exactly the header line and nothing else parses to an empty
/// record collection.
pub proof fn lemma_log_header_exactness(s: Seq<char>)
    ensures
        spec_lines(s).len() > 0 && spec_lines(s)[0] != log_header() ==> spec_parse_log(s) == Err::<
            Seq<LogEntryView>,
            LogParseError,
        >(LogParseError::InvalidHeader),
        spec_lines(s) == seq![log_header()] ==> spec_parse_log(s) == Ok::<
            Seq<LogEntryView>,
            LogParseError,
        >(Seq::<LogEntryView>::empty()),
{
    if spec_lines(s) == seq![log_header()] {
        assert(spec_lines(s).drop_first() =~= Seq::<Seq<char>>::empty());
    }
}

/// Parsing the empty document fails with `UnexpectedEOF`.
pub proof fn lemma_log_empty_input()
    ensures
        spec_parse_log(Seq::<char>::empty()) == Err::<Seq<LogEntryView>, LogParseError>(
            LogParseError::UnexpectedEOF,
        ),
{
}

/// Short-row fatality: under a valid header, a data row with fewer comma
/// tokens than declared columns fails the whole parse with
/// `UnexpectedEOL`, whatever rows come before (as long as they parse) or
/// after it.
pub proof fn lemma_log_short_row_fatal(s: Seq<char>, k: int)
    requires
        spec_lines(s).len() > 0,
        spec_lines(s)[0] == log_header(),
        0 <= k < spec_lines(s).len() - 1,
        forall|j: int| 0 <= j < k ==> spec_parse_log_row(#[trigger] spec_lines(s).drop_first()[j])
            is Ok,
        spec_split(spec_lines(s).drop_first()[k], ',').len() < 2,
    ensures
        spec_parse_log(s) == Err::<Seq<LogEntryView>, LogParseError>(LogParseError::UnexpectedEOL),
{
    let rows = spec_lines(s).drop_first();
    assert(spec_parse_log_row(rows[k]) == Err::<LogEntryView, LogParseError>(
        LogParseError::UnexpectedEOL,
    ));
    lemma_rows_error_at(rows, k);
}

/// Column error attribution: under a valid header, a row whose timestamp
/// token is malformed fails the whole parse with the timestamp column's
/// variant, wrapping that token's own parse error — never another
/// column's variant.
pub proof fn lemma_log_column_error(s: Seq<char>, k: int, e: ParseError)
    requires
        spec_lines(s).len() > 0,
        spec_lines(s)[0] == log_header(),
        0 <= k < spec_lines(s).len() - 1,
        forall|j: int| 0 <= j < k ==> spec_parse_log_row(#[trigger] spec_lines(s).drop_first()[j])
            is Ok,
        spec_split(spec_lines(s).drop_first()[k], ',').len() >= 2,
        spec_parse_timestamp(spec_split(spec_lines(s).drop_first()[k], ',')[1]) == Err::<
            TimestampView,
            ParseError,
        >(e),
    ensures
        spec_parse_log(s) == Err::<Seq<LogEntryView>, LogParseError>(
            LogParseError::TimestampError(e),
        ),
{
    let rows = spec_lines(s).drop_first();
    assert(spec_parse_log_row(rows[k]) == Err::<LogEntryView, LogParseError>(
        LogParseError::TimestampError(e),
    ));
    lemma_rows_error_at(rows, k);
}

/// The cookie column wraps raw text and can never fail, so no parse ever
/// yields its error variant.
pub proof fn lemma_log_cookie_column_never_fails(line: Seq<char>)
    ensures
        !(spec_parse_log_row(line) matches Err(LogParseError::CookieError(_))),
{
}

/// Extra-token tolerance: a row with more comma tokens than declared
/// columns parses from its first tokens alone; the trailing extras are
/// ignored.
pub proof fn lemma_log_row_extra_tokens(line: Seq<char>)
    requires
        spec_split(line, ',').len() > 2,
        spec_parse_timestamp(spec_split(line, ',')[1]) is Ok,
    ensures
        spec_parse_log_row(line) == Ok::<LogEntryView, LogParseError>(
            (LogEntryView {
                cookie: spec_split(line, ',')[0],
                timestamp: spec_parse_timestamp(spec_split(line, ',')[1])->Ok_0,
            }),
        ),
{
}

} // verus!
