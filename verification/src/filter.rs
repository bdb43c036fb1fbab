//! Exploratory row filtering: the rows of the variant metadata table whose
//! `ID` field is a fixed variant id, found by a boolean expression.
//!
//! The table is read by the `csv` crate and the expression is evaluated by
//! the `evalexpr` crate; what this module proves rests on the contracts
//! that it states for those two calls.

use vstd::prelude::*;
use vstd::string::*;
use vstd::slice::*;
use crate::metadata::comment_block_len;
use crate::metadata::comment_end;
use crate::pfile::Pfile;
use crate::text::views;

verus! {

/// The error of the `csv` crate, carried through unopened.
#[verifier::external_type_specification]
#[verifier::external_body]
pub struct ExCsvError(csv::Error);

/// The error of the `evalexpr` crate, carried through unopened.
#[verifier::external_type_specification]
#[verifier::external_body]
pub struct ExEvalexprError(evalexpr::EvalexprError);

/// Why a filter run gave no count.
#[derive(Clone, Copy, Debug, PartialEq, Eq, Structural)]
pub enum FilterError {
    /// The file has no column-header line.
    MissingHeader,
    /// The table could not be read.
    Table,
    /// The expression could not be evaluated on a record (counted from zero).
    Evaluation { row: u64 },
}

/// The records that the `csv` reader yields for `data` as a tab-delimited
/// table with a header record, read through a buffer of `capacity` bytes:
/// the header record first, then the data records, each as its fields.
/// `None` where the reader reports an error.
pub uninterp spec fn table_records(data: Seq<u8>, capacity: usize) -> Option<Seq<Seq<Seq<char>>>>;

/// The filter expression.
pub open spec fn id_filter() -> Seq<char> {
    "ID == \"rs8100066\""@
}

/// The fields of every record of a table.
pub open spec fn table_view(rows: Seq<Vec<String>>) -> Seq<Seq<Seq<char>>> {
    Seq::new(rows.len(), |i: int| views(rows[i]@))
}

/// The value that variable `name` has once the first `n` names are bound
/// to the first `n` values, one after another: that of the last binding of
/// `name`, or `None` where it is not bound.
pub open spec fn bound_value(names: Seq<Seq<char>>, values: Seq<Seq<char>>, name: Seq<char>, n: int) -> Option<
    Seq<char>,
>
    decreases n,
{
    if n <= 0 || n > names.len() || n > values.len() {
        None
    } else if names[n - 1] == name {
        Some(values[n - 1])
    } else {
        bound_value(names, values, name, n - 1)
    }
}

/// What the filter expression says of a record: whether the value bound to
/// `ID` is the variant id, or `None` where `ID` is not bound. Names and
/// values are paired as far as the shorter of the two goes.
pub open spec fn id_verdict(names: Seq<Seq<char>>, values: Seq<Seq<char>>) -> Option<bool> {
    let n = if names.len() <= values.len() {
        names.len() as int
    } else {
        values.len() as int
    };
    match bound_value(names, values, "ID"@, n) {
        Some(value) => Some(value == "rs8100066"@),
        None => None,
    }
}

/// The number of records among the first `n` data records of a table that
/// the filter keeps, or the failure of the first record on which the
/// expression cannot be evaluated. Record 0 of `rows` is the header.
pub open spec fn kept_rows(rows: Seq<Seq<Seq<char>>>, n: int) -> Result<int, FilterError>
    decreases n,
{
    if n <= 0 || n + 1 > rows.len() {
        Ok(0)
    } else {
        match kept_rows(rows, n - 1) {
            Err(e) => Err(e),
            Ok(count) => match id_verdict(rows[0], rows[n]) {
                None => Err(FilterError::Evaluation { row: (n - 1) as u64 }),
                Some(keep) => Ok(
                    if keep {
                        count + 1
                    } else {
                        count
                    },
                ),
            },
        }
    }
}

/// The number of data records of a table that the filter keeps. A table
/// without header record has none.
pub open spec fn kept(rows: Seq<Seq<Seq<char>>>) -> Result<int, FilterError> {
    kept_rows(rows, rows.len() - 1)
}

/// The bytes of a text.
pub open spec fn encoded(text: Seq<char>) -> Seq<u8> {
    vstd::utf8::encode_utf8(text)
}

/// The bytes of the lines `lines[from..]`, one line after another.
pub open spec fn bytes_of(lines: Seq<Seq<char>>, from: int) -> Seq<u8>
    decreases lines.len() - from,
{
    if from < 0 || from >= lines.len() {
        Seq::empty()
    } else {
        encoded(lines[from]) + bytes_of(lines, from + 1)
    }
}

/// The bytes of the table of a metadata file whose comment block has `k`
/// lines, `k` at least 1: the column-header line without the first byte,
/// which holds its comment marker, and every line after it.
pub open spec fn table_bytes(lines: Seq<Seq<char>>, k: int) -> Seq<u8> {
    let header = encoded(lines[k - 1]);
    (if header.len() >= 1 {
        header.skip(1)
    } else {
        header
    }) + bytes_of(lines, k)
}

/// What a filter run on the lines of a variant metadata file yields.
pub open spec fn filter_count(lines: Seq<Seq<char>>, capacity: usize) -> Result<int, FilterError> {
    let k = comment_end(lines, 0);
    if k == 0 {
        Err(FilterError::MissingHeader)
    } else {
        match table_records(table_bytes(lines, k), capacity) {
            None => Err(FilterError::Table),
            Some(rows) => kept(rows),
        }
    }
}

/// Reads a tab-delimited table with `csv::ReaderBuilder` (`delimiter`,
/// `buffer_capacity`, `has_headers`, `from_reader`) and `csv::Reader`
/// (`headers`, `records`): the header record first, then every data
/// record, each as its fields. The contract only gives the outcome its
/// name: the same bytes read through a buffer of the same capacity give
/// the same records or fail alike.
#[verifier::external_body]
fn read_table(data: &[u8], capacity: usize) -> (rows: Result<Vec<Vec<String>>, csv::Error>)
    ensures
        match rows {
            Ok(r) => table_records(data@, capacity) == Some(table_view(r@)),
            Err(_) => table_records(data@, capacity) is None,
        },
{
    let mut reader = csv::ReaderBuilder::new()
        .delimiter(b'\t')
        .buffer_capacity(capacity)
        .has_headers(true)
        .from_reader(data);
    let mut rows: Vec<Vec<String>> = Vec::new();
    rows.push(reader.headers()?.iter().map(|f| f.to_string()).collect());
    for record in reader.records() {
        rows.push(record?.iter().map(|f| f.to_string()).collect());
    }
    Ok(rows)
}

/// Evaluates the filter expression with `evalexpr`: binds each name to its
/// value as a string with `HashMapContext::set_value`, a later binding of a
/// name taking the place of an earlier one, then calls
/// `eval_boolean_with_context`. For the one expression admitted, the
/// evaluator looks up `ID` and compares its value with the string literal:
/// it fails where `ID` is not bound.
#[verifier::external_body]
fn eval_filter(expr: &str, names: &Vec<String>, values: &Vec<String>) -> (verdict: Result<
    bool,
    evalexpr::EvalexprError,
>)
    requires
        expr@ == id_filter(),
    ensures
        match verdict {
            Ok(keep) => id_verdict(views(names@), views(values@)) == Some(keep),
            Err(_) => id_verdict(views(names@), views(values@)) is None,
        },
{
    let mut context = evalexpr::HashMapContext::new();
    for (name, value) in std::iter::zip(names, values) {
        evalexpr::ContextWithMutableVariables::set_value(
            &mut context,
            name.to_string(),
            evalexpr::Value::String(value.to_string()),
        )?;
    }
    evalexpr::eval_boolean_with_context(expr, &context)
}

/// What one more record does to the count: a kept record adds one, a
/// record that is not kept adds nothing, and a record on which the
/// expression cannot be evaluated ends the run.
pub fn tally(count: u64, row: u64, verdict: Option<bool>) -> (next: Result<u64, FilterError>)
    requires
        count < u64::MAX,
    ensures
        next == match verdict {
            None => Err::<u64, FilterError>(FilterError::Evaluation { row }),
            Some(true) => Ok((count + 1) as u64),
            Some(false) => Ok(count),
        },
{
    match verdict {
        None => Err(FilterError::Evaluation { row }),
        Some(true) => Ok(count + 1),
        Some(false) => Ok(count),
    }
}

/// Counts the data records of a table that the filter keeps. Record 0 of
/// `rows` is the header record, which names the fields.
pub fn count_kept(rows: &Vec<Vec<String>>) -> (count: Result<u64, FilterError>)
    ensures
        match kept(table_view(rows@)) {
            Ok(n) => count == Ok::<u64, FilterError>(n as u64) && 0 <= n <= rows.len(),
            Err(e) => count == Err::<u64, FilterError>(e),
        },
{
    let ghost table = table_view(rows@);
    if rows.len() == 0 {
        return Ok(0);
    }
    let mut count: u64 = 0;
    let mut i: usize = 1;
    while i < rows.len()
        invariant
            1 <= i <= rows.len(),
            table == table_view(rows@),
            count <= i - 1,
            kept_rows(table, i - 1) == Ok::<int, FilterError>(count as int),
        decreases rows.len() - i,
    {
        assert(table[0] == views(rows@[0]@));
        assert(table[i as int] == views(rows@[i as int]@));
        let verdict = match eval_filter("ID == \"rs8100066\"", &rows[0], &rows[i]) {
            Ok(keep) => Some(keep),
            Err(_) => None,
        };
        match tally(count, (i - 1) as u64, verdict) {
            Err(e) => {
                proof {
                    lemma_kept_rows_fails(table, i as int, rows.len() - 1);
                }
                return Err(e);
            },
            Ok(next) => {
                count = next;
            },
        }
        i += 1;
    }
    Ok(count)
}

/// Where the run fails within the first `n` records, it fails in the same
/// way on any longer run.
pub proof fn lemma_kept_rows_fails(rows: Seq<Seq<Seq<char>>>, n: int, m: int)
    requires
        0 <= n <= m < rows.len(),
        kept_rows(rows, n) is Err,
    ensures
        kept_rows(rows, m) == kept_rows(rows, n),
    decreases m - n,
{
    if n < m {
        lemma_kept_rows_fails(rows, n, m - 1);
    }
}

impl Pfile {
    /// Counts the rows of the variant metadata file whose `ID` field is
    /// the variant id of the filter expression. The table starts just
    /// after the comment marker of the column-header line and is read
    /// through a buffer of as many bytes as the container declares
    /// variants.
    pub fn filter_test(&self, pvar_lines: &Vec<String>) -> (count: Result<u64, FilterError>)
        ensures
            match filter_count(views(pvar_lines@), self.num_variants as usize) {
                Ok(n) => count == Ok::<u64, FilterError>(n as u64) && 0 <= n <= u64::MAX,
                Err(e) => count == Err::<u64, FilterError>(e),
            },
    {
        let ghost all = views(pvar_lines@);
        let k = comment_block_len(pvar_lines);
        if k == 0 {
            return Err(FilterError::MissingHeader);
        }
        let mut data: Vec<u8> = Vec::new();
        let header = pvar_lines[k - 1].as_str().as_bytes();
        if header.len() >= 1 {
            data.extend_from_slice(slice_subrange(header, 1, header.len()));
        } else {
            data.extend_from_slice(header);
        }
        let ghost head = data@;
        let mut i: usize = k;
        while i < pvar_lines.len()
            invariant
                k <= i <= pvar_lines.len(),
                all == views(pvar_lines@),
                head + bytes_of(all, k as int) == data@ + bytes_of(all, i as int),
            decreases pvar_lines.len() - i,
        {
            let ghost before = data@;
            data.extend_from_slice(pvar_lines[i].as_str().as_bytes());
            assert(before + (encoded(all[i as int]) + bytes_of(all, i + 1)) =~= data@ + bytes_of(
                all,
                i + 1,
            ));
            i += 1;
        }
        assert(data@ + Seq::<u8>::empty() =~= data@);
        assert(data@ == table_bytes(all, k as int));
        match read_table(data.as_slice(), self.num_variants as usize) {
            Err(_) => Err(FilterError::Table),
            Ok(rows) => count_kept(&rows),
        }
    }
}

} // verus!
