//! Turning the raw upload into typed rows: the header line is skipped, blank
//! lines are skipped, and every other line must carry exactly three
//! comma-separated fields — a date, a supplier name and an amount. The first
//! offending line aborts the whole operation with its 1-based line number.

use crate::amount::{spec_parse_amount, Amount};
use crate::date::{spec_parse_date, Date};
use crate::textparse::{
    spec_split_fields, spec_split_lines, spec_trim, split_fields, split_lines, trim_bytes, views,
};
use vstd::prelude::*;

verus! {

/// One validated row of an upload.
#[derive(Debug)]
pub struct NormalizedRow {
    pub date: Date,
    pub supplier_name: Vec<u8>,
    pub amount: Amount,
}

/// The mathematical shadow of a [`NormalizedRow`].
pub struct RowView {
    pub date: Date,
    pub supplier_name: Seq<u8>,
    pub cents: int,
}

impl View for NormalizedRow {
    type V = RowView;

    open spec fn view(&self) -> RowView {
        RowView {
            date: self.date,
            supplier_name: self.supplier_name@,
            cents: self.amount.cents as int,
        }
    }
}

pub open spec fn row_views(rs: Seq<NormalizedRow>) -> Seq<RowView> {
    rs.map_values(|r: NormalizedRow| r@)
}

/// Which check a rejected line failed.
#[derive(Clone, Copy, Debug, PartialEq, Eq, Structural)]
pub enum ParseErrorKind {
    WrongColumnCount,
    BadDate,
    BadAmount,
}

/// Why an import request was refused.
#[derive(Clone, Copy, Debug, PartialEq, Eq, Structural)]
pub enum ImportError {
    /// A line failed validation; `line` counts from 1 and includes the header.
    ParseFailure { line: usize, kind: ParseErrorKind },
    /// The backing store could not complete the transaction.
    PersistenceFailure,
}

/// A rejected line in the mathematical model: its 1-based number and check.
pub struct ParseIssue {
    pub line: int,
    pub kind: ParseErrorKind,
}

pub open spec fn spec_parse_line(line: Seq<u8>) -> Result<RowView, ParseErrorKind> {
    let fields = spec_split_fields(line);
    if fields.len() != 3 {
        Err(ParseErrorKind::WrongColumnCount)
    } else {
        match spec_parse_date(spec_trim(fields[0])) {
            None => Err(ParseErrorKind::BadDate),
            Some(date) => match spec_parse_amount(spec_trim(fields[2])) {
                None => Err(ParseErrorKind::BadAmount),
                Some(cents) => Ok(RowView { date, supplier_name: spec_trim(fields[1]), cents }),
            },
        }
    }
}

/// The rows denoted by the lines from index `k` on, or the first rejected
/// line. Line 0, the header, is never passed in.
pub open spec fn spec_rows_from(lines: Seq<Seq<u8>>, k: int) -> Result<Seq<RowView>, ParseIssue>
    decreases lines.len() - k,
{
    if k < 0 || k >= lines.len() {
        Ok(Seq::empty())
    } else if spec_trim(lines[k]).len() == 0 {
        spec_rows_from(lines, k + 1)
    } else {
        match spec_parse_line(lines[k]) {
            Err(kind) => Err(ParseIssue { line: k + 1, kind }),
            Ok(row) => match spec_rows_from(lines, k + 1) {
                Ok(rest) => Ok(seq![row] + rest),
                Err(e) => Err(e),
            },
        }
    }
}

/// What the whole payload denotes: the ordered rows of every non-blank line
/// after the header, or the first rejected line.
pub open spec fn spec_normalize(s: Seq<u8>) -> Result<Seq<RowView>, ParseIssue> {
    spec_rows_from(spec_split_lines(s), 1)
}

/// Rows that came out of normalization: valid calendar dates and amounts
/// strictly within the fixed-point range.
pub open spec fn wf_rows(rs: Seq<RowView>) -> bool {
    forall|i: int|
        0 <= i < rs.len() ==> (#[trigger] rs[i].date.valid()
            && -crate::amount::amount_limit() < rs[i].cents < crate::amount::amount_limit())
}

/// How many lines from index `k` on are non-blank.
pub open spec fn count_data_lines(lines: Seq<Seq<u8>>, k: int) -> int
    decreases lines.len() - k,
{
    if k < 0 || k >= lines.len() {
        0
    } else {
        (if spec_trim(lines[k]).len() == 0 {
            0int
        } else {
            1int
        }) + count_data_lines(lines, k + 1)
    }
}

/// Accepted rows are well formed, and there are exactly as many of them as
/// there are non-blank lines after the header.
pub proof fn lemma_rows_from_props(lines: Seq<Seq<u8>>, k: int)
    ensures
        match spec_rows_from(lines, k) {
            Ok(rows) => wf_rows(rows) && rows.len() == count_data_lines(lines, k),
            Err(e) => true,
        },
    decreases lines.len() - k,
{
    if k < 0 || k >= lines.len() {
    } else if spec_trim(lines[k]).len() == 0 {
        lemma_rows_from_props(lines, k + 1);
    } else {
        lemma_rows_from_props(lines, k + 1);
        match spec_parse_line(lines[k]) {
            Err(_) => {},
            Ok(row) => {
                let fields = spec_split_fields(lines[k]);
                assert(fields.len() == 3);
                let d0 = spec_parse_date(spec_trim(fields[0]));
                let a2 = spec_parse_amount(spec_trim(fields[2]));
                assert(d0 is Some && a2 is Some && row.date == d0->Some_0 && row.cents
                    == a2->Some_0);
                assert(d0->Some_0.valid());
                crate::amount::lemma_parse_amount_bound(spec_trim(fields[2]));
                match spec_rows_from(lines, k + 1) {
                    Ok(rest) => {
                        let all = seq![row] + rest;
                        assert forall|i: int| 0 <= i < all.len() implies (#[trigger] all[i].date.valid()
                            && -crate::amount::amount_limit() < all[i].cents
                            < crate::amount::amount_limit()) by {
                            if i == 0 {
                                assert(all[0] == row);
                            } else {
                                assert(all[i] == rest[i - 1]);
                                assert(rest[i - 1].date.valid());
                            }
                        }
                        assert(wf_rows(all));
                    },
                    Err(_) => {},
                }
            },
        }
    }
}

pub fn normalize_csv(raw: &Vec<u8>) -> (r: Result<Vec<NormalizedRow>, ImportError>)
    ensures
        match r {
            Ok(rows) => spec_normalize(raw@) == Ok::<Seq<RowView>, ParseIssue>(row_views(rows@)),
            Err(e) => match e {
                ImportError::ParseFailure { line, kind } => spec_normalize(raw@) == Err::<
                    Seq<RowView>,
                    ParseIssue,
                >(ParseIssue { line: line as int, kind }),
                _ => false,
            },
        },
{
    let lines = split_lines(raw);
    let mut rows: Vec<NormalizedRow> = Vec::new();
    let nl = lines.len();
    let mut k: usize = 1;
    proof {
        if nl >= 1 {
            assert(spec_rows_from(views(lines@), 1) == spec_rows_from(views(lines@), 1));
        } else {
            assert(spec_rows_from(views(lines@), 1) == Ok::<Seq<RowView>, ParseIssue>(
                Seq::empty(),
            ));
        }
        assert(row_views(rows@) =~= Seq::<RowView>::empty());
        assert(row_views(rows@) + Seq::<RowView>::empty() =~= Seq::<RowView>::empty());
    }
    while k < nl
        invariant
            1 <= k,
            k <= nl || k == 1,
            nl == lines@.len(),
            views(lines@) == spec_split_lines(raw@),
            match spec_rows_from(views(lines@), k as int) {
                Ok(rest) => spec_normalize(raw@) == Ok::<Seq<RowView>, ParseIssue>(
                    row_views(rows@) + rest,
                ),
                Err(e) => spec_normalize(raw@) == Err::<Seq<RowView>, ParseIssue>(e),
            },
        decreases nl - k,
    {
        let ghost gl = views(lines@);
        let line = &lines[k];
        proof {
            assert(gl[k as int] == lines@[k as int]@);
        }
        let t = trim_bytes(line);
        if t.len() == 0 {
            k += 1;
        } else {
            let fields = split_fields(line);
            let ghost gf = spec_split_fields(lines@[k as int]@);
            if fields.len() != 3 {
                return Err(
                    ImportError::ParseFailure { line: k + 1, kind: ParseErrorKind::WrongColumnCount },
                );
            }
            proof {
                assert(gf[0] == fields@[0]@ && gf[1] == fields@[1]@ && gf[2] == fields@[2]@);
            }
            let f0 = trim_bytes(&fields[0]);
            let date_opt = crate::date::parse_date(&f0);
            let date = match date_opt {
                Some(d) => d,
                None => {
                    return Err(
                        ImportError::ParseFailure { line: k + 1, kind: ParseErrorKind::BadDate },
                    );
                },
            };
            let f1 = trim_bytes(&fields[1]);
            let f2 = trim_bytes(&fields[2]);
            let amount_opt = crate::amount::parse_amount(&f2);
            let amount = match amount_opt {
                Some(a) => a,
                None => {
                    return Err(
                        ImportError::ParseFailure { line: k + 1, kind: ParseErrorKind::BadAmount },
                    );
                },
            };
            let row = NormalizedRow { date, supplier_name: f1, amount };
            proof {
                let srow = spec_parse_line(gl[k as int])->Ok_0;
                assert(row@ == srow);
                assert(row_views(rows@.push(row)) =~= row_views(rows@).push(row@));
                match spec_rows_from(gl, k as int + 1) {
                    Ok(rest) => {
                        assert(row_views(rows@) + (seq![srow] + rest) =~= row_views(rows@).push(
                            row@,
                        ) + rest);
                    },
                    Err(e) => {},
                }
            }
            rows.push(row);
            k += 1;
        }
    }
    proof {
        assert(spec_rows_from(views(lines@), k as int) == Ok::<Seq<RowView>, ParseIssue>(
            Seq::empty(),
        ));
        assert(row_views(rows@) + Seq::<RowView>::empty() =~= row_views(rows@));
    }
    Ok(rows)
}

} // verus!
