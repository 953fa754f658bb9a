use vstd::prelude::*;

use crate::num::{
    parse_isize_str, parse_usize_str, spec_parse_int, spec_parse_uint, IntParseError,
};
use crate::text::{self, spec_lines, spec_split, str_eq, views_of_strs};

verus! {

/// The error type of a plain text column. Wrapping raw text can never
/// fail, so no value of this type is ever produced: the single marker
/// variant stands in for an uninhabited type.
#[derive(Debug, Clone, PartialEq, Eq, Structural)]
pub enum StringError {
    Impossible,
}

/// The mathematical content of one parsed row of the sample schema.
#[verifier::ext_equal]
pub struct CsvRowView {
    pub field_one: Seq<char>,
    pub field_two: int,
    pub field_three: int,
}

/// One parsed row of the sample three-column schema: a text field, a
/// signed integer and an unsigned integer.
#[derive(Debug, Clone)]
pub struct CsvRow {
    pub field_one: String,
    pub field_two: isize,
    pub field_three: usize,
}

impl View for CsvRow {
    type V = CsvRowView;

    open spec fn view(&self) -> CsvRowView {
        CsvRowView {
            field_one: self.field_one@,
            field_two: self.field_two as int,
            field_three: self.field_three as int,
        }
    }
}

impl PartialEq for CsvRow {
    fn eq(&self, other: &CsvRow) -> (r: bool) {
        let r = str_eq(self.field_one.as_str(), other.field_one.as_str()) && self.field_two
            == other.field_two && self.field_three == other.field_three;
        proof {
            if self.field_one@ == other.field_one@ && self.field_two == other.field_two
                && self.field_three == other.field_three {
                assert(self@ =~= other@);
            }
        }
        r
    }
}

impl vstd::std_specs::cmp::PartialEqSpecImpl for CsvRow {
    open spec fn obeys_eq_spec() -> bool {
        true
    }

    open spec fn eq_spec(&self, other: &CsvRow) -> bool {
        self@ == other@
    }
}

/// The views of a sequence of parsed sample rows.
pub open spec fn rows_view(v: Seq<CsvRow>) -> Seq<CsvRowView> {
    v.map_values(|e: CsvRow| e@)
}

/// A successfully parsed document of the sample schema.
#[derive(Debug, Clone)]
pub struct Csv(pub Vec<CsvRow>);

impl View for Csv {
    type V = Seq<CsvRowView>;

    open spec fn view(&self) -> Seq<CsvRowView> {
        rows_view(self.0@)
    }
}

impl PartialEq for Csv {
    fn eq(&self, other: &Csv) -> (r: bool) {
        if self.0.len() != other.0.len() {
            proof {
                assert(self@.len() != other@.len());
            }
            return false;
        }
        let n = self.0.len();
        let mut i: usize = 0;
        while i < n
            invariant
                i <= n,
                n == self.0@.len(),
                n == other.0@.len(),
                forall|j: int| 0 <= j < i ==> self@[j] == other@[j],
            decreases n - i,
        {
            if !(self.0[i] == other.0[i]) {
                proof {
                    assert(self@[i as int] != other@[i as int]);
                }
                return false;
            }
            i = i + 1;
        }
        proof {
            assert(self@ =~= other@);
        }
        true
    }
}

impl vstd::std_specs::cmp::PartialEqSpecImpl for Csv {
    open spec fn obeys_eq_spec() -> bool {
        true
    }

    open spec fn eq_spec(&self, other: &Csv) -> bool {
        self@ == other@
    }
}

/// How parsing the sample schema can fail: the three structural cases,
/// then one case per schema column, carrying that column's parse error.
#[derive(Debug, Clone, PartialEq, Eq, Structural)]
pub enum CsvParseError {
    InvalidHeader,
    UnexpectedEOF,
    UnexpectedEOL,
    FieldOneError(StringError),
    FieldTwoError(IntParseError),
    FieldThreeError(IntParseError),
}

/// The literal header text of the sample schema: its column labels joined
/// with `,`.
pub open spec fn csv_header() -> Seq<char> {
    "field one,field two,field three"@
}

/// Parsing one data row of the sample schema: one token per column in
/// declared order, left to right; a missing token ends the whole parse,
/// and a malformed value is charged to its own column. Extra tokens are
/// ignored.
pub open spec fn spec_parse_csv_row(line: Seq<char>) -> Result<CsvRowView, CsvParseError> {
    let toks = spec_split(line, ',');
    if toks.len() < 2 {
        Err(CsvParseError::UnexpectedEOL)
    } else {
        match spec_parse_int(toks[1], isize::MIN as int, isize::MAX as int) {
            Err(e) => Err(CsvParseError::FieldTwoError(e)),
            Ok(two) => {
                if toks.len() < 3 {
                    Err(CsvParseError::UnexpectedEOL)
                } else {
                    match spec_parse_uint(toks[2], usize::MAX as nat) {
                        Err(e) => Err(CsvParseError::FieldThreeError(e)),
                        Ok(three) => Ok(
                            CsvRowView {
                                field_one: toks[0],
                                field_two: two,
                                field_three: three as int,
                            },
                        ),
                    }
                }
            },
        }
    }
}

/// Parsing the sample schema's data rows in order, failing fast.
pub open spec fn spec_parse_csv_rows(rows: Seq<Seq<char>>) -> Result<Seq<CsvRowView>, CsvParseError>
    decreases rows.len(),
{
    if rows.len() == 0 {
        Ok(Seq::<CsvRowView>::empty())
    } else {
        match spec_parse_csv_row(rows[0]) {
            Err(e) => Err(e),
            Ok(rec) => match spec_parse_csv_rows(rows.drop_first()) {
                Err(e) => Err(e),
                Ok(rest) => Ok(seq![rec] + rest),
            },
        }
    }
}

/// Parsing a whole document of the sample schema.
pub open spec fn spec_parse_csv(s: Seq<char>) -> Result<Seq<CsvRowView>, CsvParseError> {
    let ls = spec_lines(s);
    if ls.len() == 0 {
        Err(CsvParseError::UnexpectedEOF)
    } else if ls[0] != csv_header() {
        Err(CsvParseError::InvalidHeader)
    } else {
        spec_parse_csv_rows(ls.drop_first())
    }
}

/// Parses one data line of the sample schema.
fn parse_csv_row(line: &str) -> (r: Result<CsvRow, CsvParseError>)
    ensures
        match r {
            Ok(rec) => spec_parse_csv_row(line@) == Ok::<CsvRowView, CsvParseError>(rec@),
            Err(e) => spec_parse_csv_row(line@) == Err::<CsvRowView, CsvParseError>(e),
        },
{
    let toks = text::split_char(line, ',');
    proof {
        text::lemma_split_len(line@, ',');
        assert(toks@.len() == spec_split(line@, ',').len());
    }
    let field_one = toks[0].to_owned();
    if toks.len() < 2 {
        return Err(CsvParseError::UnexpectedEOL);
    }
    let field_two = match parse_isize_str(toks[1]) {
        Err(e) => {
            return Err(CsvParseError::FieldTwoError(e));
        },
        Ok(v) => v,
    };
    if toks.len() < 3 {
        return Err(CsvParseError::UnexpectedEOL);
    }
    match parse_usize_str(toks[2]) {
        Err(e) => Err(CsvParseError::FieldThreeError(e)),
        Ok(field_three) => {
            let rec = CsvRow { field_one, field_two, field_three };
            proof {
                assert(rec@ =~= (CsvRowView {
                    field_one: spec_split(line@, ',')[0],
                    field_two: rec.field_two as int,
                    field_three: rec.field_three as int,
                }));
            }
            Ok(rec)
        },
    }
}

impl Csv {
    /// Parses a whole document of the sample schema; exactly
    /// `spec_parse_csv` on the input's characters.
    pub fn from_str(s: &str) -> (r: Result<Csv, CsvParseError>)
        ensures
            match r {
                Ok(doc) => spec_parse_csv(s@) == Ok::<Seq<CsvRowView>, CsvParseError>(doc@),
                Err(e) => spec_parse_csv(s@) == Err::<Seq<CsvRowView>, CsvParseError>(e),
            },
    {
        if s.is_empty() {
            return Err(CsvParseError::UnexpectedEOF);
        }
        let lines = text::split_char(s, '\n');
        proof {
            text::lemma_split_len(s@, '\n');
            assert(lines@.len() == spec_lines(s@).len());
            assert(lines@[0]@ == spec_lines(s@)[0]);
        }
        if !str_eq(lines[0], "field one,field two,field three") {
            return Err(CsvParseError::InvalidHeader);
        }
        let ghost rows = spec_lines(s@).drop_first();
        let mut out: Vec<CsvRow> = Vec::new();
        let mut k: usize = 1;
        proof {
            assert(rows.skip(0) =~= rows);
            assert(rows_view(out@) + spec_parse_csv_rows(rows)->Ok_0 =~= spec_parse_csv_rows(
                rows,
            )->Ok_0);
        }
        while k < lines.len()
            invariant
                1 <= k <= lines@.len(),
                views_of_strs(lines@) == spec_split(s@, '\n'),
                s@.len() > 0,
                spec_lines(s@)[0] == csv_header(),
                rows == spec_lines(s@).drop_first(),
                rows.len() == lines@.len() - 1,
                match spec_parse_csv_rows(rows.skip(k - 1)) {
                    Ok(rest) => spec_parse_csv_rows(rows) == Ok::<Seq<CsvRowView>, CsvParseError>(
                        rows_view(out@) + rest,
                    ),
                    Err(e) => spec_parse_csv_rows(rows) == Err::<Seq<CsvRowView>, CsvParseError>(
                        e,
                    ),
                },
            decreases lines@.len() - k,
        {
            let ghost tail = rows.skip(k - 1);
            proof {
                assert(tail.len() == rows.len() - (k - 1));
                assert(tail[0] == rows[k - 1]);
                assert(rows[k - 1] == spec_lines(s@)[k as int]);
                assert(lines@[k as int]@ == spec_lines(s@)[k as int]);
                assert(tail.drop_first() =~= rows.skip(k as int));
            }
            match parse_csv_row(lines[k]) {
                Err(e) => {
                    proof {
                        assert(spec_parse_csv_rows(tail) == Err::<Seq<CsvRowView>, CsvParseError>(
                            e,
                        ));
                    }
                    return Err(e);
                },
                Ok(rec) => {
                    proof {
                        assert(rows_view(out@.push(rec)) =~= rows_view(out@) + seq![rec@]);
                        if spec_parse_csv_rows(rows.skip(k as int)) is Ok {
                            let rest2 = spec_parse_csv_rows(rows.skip(k as int))->Ok_0;
                            assert(spec_parse_csv_rows(tail) == Ok::<
                                Seq<CsvRowView>,
                                CsvParseError,
                            >(seq![rec@] + rest2));
                            assert(rows_view(out@) + (seq![rec@] + rest2) =~= (rows_view(out@)
                                + seq![rec@]) + rest2);
                        }
                    }
                    out.push(rec);
                    k = k + 1;
                },
            }
        }
        proof {
            assert(rows.skip(k - 1) =~= Seq::<Seq<char>>::empty());
            assert(spec_parse_csv_rows(rows.skip(k - 1)) == Ok::<Seq<CsvRowView>, CsvParseError>(
                Seq::<CsvRowView>::empty(),
            ));
            assert(rows_view(out@) + Seq::<CsvRowView>::empty() =~= rows_view(out@));
        }
        Ok(Csv(out))
    }
}

impl core::str::FromStr for Csv {
    type Err = CsvParseError;

    fn from_str(s: &str) -> Result<Csv, CsvParseError> {
        Csv::from_str(s)
    }
}

/// The first bad row ends the whole parse with its own error, whatever
/// comes after it.
proof fn lemma_csv_rows_error_at(rows: Seq<Seq<char>>, k: int)
    requires
        0 <= k < rows.len(),
        forall|j: int| 0 <= j < k ==> spec_parse_csv_row(rows[j]) is Ok,
        spec_parse_csv_row(rows[k]) is Err,
    ensures
        spec_parse_csv_rows(rows) == Err::<Seq<CsvRowView>, CsvParseError>(
            spec_parse_csv_row(rows[k])->Err_0,
        ),
    decreases k,
{
    if k == 0 {
    } else {
        assert(spec_parse_csv_row(rows[0]) is Ok);
        assert forall|j: int| 0 <= j < k - 1 implies spec_parse_csv_row(
            rows.drop_first()[j],
        ) is Ok by {
            assert(rows.drop_first()[j] == rows[j + 1]);
        }
        assert(rows.drop_first()[k - 1] == rows[k]);
        lemma_csv_rows_error_at(rows.drop_first(), k - 1);
    }
}

/// The text column wraps raw text and can never fail, so no parse ever
/// yields its error variant.
pub proof fn lemma_csv_text_column_never_fails(line: Seq<char>)
    ensures
        !(spec_parse_csv_row(line) matches Err(CsvParseError::FieldOneError(_))),
{
}

/// Header exactness for the sample schema: a document with at least one
/// line whose first line is not exactly the expected header fails with
/// `InvalidHeader`; a document that is exactly the header line and nothing
/// else parses to an empty record collection.
pub proof fn lemma_csv_header_exactness(s: Seq<char>)
    ensures
        spec_lines(s).len() > 0 && spec_lines(s)[0] != csv_header() ==> spec_parse_csv(s) == Err::<
            Seq<CsvRowView>,
            CsvParseError,
        >(CsvParseError::InvalidHeader),
        spec_lines(s) == seq![csv_header()] ==> spec_parse_csv(s) == Ok::<
            Seq<CsvRowView>,
            CsvParseError,
        >(Seq::<CsvRowView>::empty()),
{
    if spec_lines(s) == seq![csv_header()] {
        assert(spec_lines(s).drop_first() =~= Seq::<Seq<char>>::empty());
    }
}

/// Parsing the empty document of the sample schema fails with
/// `UnexpectedEOF`.
pub proof fn lemma_csv_empty_input()
    ensures
        spec_parse_csv(Seq::<char>::empty()) == Err::<Seq<CsvRowView>, CsvParseError>(
            CsvParseError::UnexpectedEOF,
        ),
{
}

/// Column error attribution for the sample schema: a malformed value in
/// the second column is charged to the second column's variant, and a
/// malformed value in the third column (with a well-formed second one) to
/// the third column's — never to another column.
pub proof fn lemma_csv_column_error(s: Seq<char>, k: int, e: IntParseError)
    requires
        spec_lines(s).len() > 0,
        spec_lines(s)[0] == csv_header(),
        0 <= k < spec_lines(s).len() - 1,
        forall|j: int| 0 <= j < k ==> spec_parse_csv_row(#[trigger] spec_lines(s).drop_first()[j])
            is Ok,
    ensures
        spec_split(spec_lines(s).drop_first()[k], ',').len() >= 2 && spec_parse_int(
            spec_split(spec_lines(s).drop_first()[k], ',')[1],
            isize::MIN as int,
            isize::MAX as int,
        ) == Err::<int, IntParseError>(e) ==> spec_parse_csv(s) == Err::<
            Seq<CsvRowView>,
            CsvParseError,
        >(CsvParseError::FieldTwoError(e)),
        spec_split(spec_lines(s).drop_first()[k], ',').len() >= 3 && spec_parse_int(
            spec_split(spec_lines(s).drop_first()[k], ',')[1],
            isize::MIN as int,
            isize::MAX as int,
        ) is Ok && spec_parse_uint(spec_split(spec_lines(s).drop_first()[k], ',')[2], usize::MAX as nat)
            == Err::<nat, IntParseError>(e) ==> spec_parse_csv(s) == Err::<
            Seq<CsvRowView>,
            CsvParseError,
        >(CsvParseError::FieldThreeError(e)),
{
    let rows = spec_lines(s).drop_first();
    let toks = spec_split(rows[k], ',');
    if toks.len() >= 2 && spec_parse_int(toks[1], isize::MIN as int, isize::MAX as int) == Err::<
        int,
        IntParseError,
    >(e) {
        assert(spec_parse_csv_row(rows[k]) == Err::<CsvRowView, CsvParseError>(
            CsvParseError::FieldTwoError(e),
        ));
        lemma_csv_rows_error_at(rows, k);
    }
    if toks.len() >= 3 && spec_parse_int(toks[1], isize::MIN as int, isize::MAX as int) is Ok
        && spec_parse_uint(toks[2], usize::MAX as nat) == Err::<nat, IntParseError>(e) {
        assert(spec_parse_csv_row(rows[k]) == Err::<CsvRowView, CsvParseError>(
            CsvParseError::FieldThreeError(e),
        ));
        lemma_csv_rows_error_at(rows, k);
    }
}

} // verus!
