//! The metadata index builder: one forward scan of a tab-delimited
//! metadata file that keeps the rows whose id was asked for.
//!
//! A metadata file is handed over as its lines, each with its line
//! terminator, in file order. It opens with a block of comment lines, the
//! last of which names the columns; every line after that block is a data
//! row, and its position among the data rows is its row index.

use vstd::prelude::*;
use vstd::string::*;
use crate::error::ConsistencyError;
use crate::pfile::Pfile;
use crate::text::chars_of;
use crate::text::column;
use crate::text::concat;
use crate::text::field_of;
use crate::text::has_at;
use crate::text::line_end_of;
use crate::text::string_of;
use crate::text::views;

verus! {

/// Column of the id in the variant metadata file.
pub const VARIANT_ID_COLUMN: usize = 2;

/// Column of the id in the sample metadata file.
pub const SAMPLE_ID_COLUMN: usize = 0;

/// One retained row: its id, its row index and the line as it was read.
pub struct SelectionEntry {
    pub id: String,
    pub row_index: u32,
    pub raw_line: String,
}

/// The retained rows of one metadata file, in file order.
pub struct SelectionIndex {
    pub entries: Vec<SelectionEntry>,
}

impl View for SelectionEntry {
    type V = (Seq<char>, int, Seq<char>);

    open spec fn view(&self) -> (Seq<char>, int, Seq<char>) {
        (self.id@, self.row_index as int, self.raw_line@)
    }
}

impl View for SelectionIndex {
    type V = Seq<(Seq<char>, int, Seq<char>)>;

    open spec fn view(&self) -> Seq<(Seq<char>, int, Seq<char>)> {
        Seq::new(self.entries@.len(), |i: int| self.entries@[i]@)
    }
}

/// The ids of the entries of an index.
pub open spec fn entry_ids(entries: Seq<(Seq<char>, int, Seq<char>)>) -> Seq<Seq<char>> {
    Seq::new(entries.len(), |i: int| entries[i].0)
}

/// The row indices of the entries of an index.
pub open spec fn entry_rows(entries: Seq<(Seq<char>, int, Seq<char>)>) -> Seq<u32> {
    Seq::new(entries.len(), |i: int| entries[i].1 as u32)
}

/// Whether a line begins with the comment marker.
pub open spec fn is_comment(line: Seq<char>) -> bool {
    line.len() > 0 && line[0] == '#'
}

/// Index of the first line at or after `from` that is no comment, or the
/// number of lines where every line from there on is one.
pub open spec fn comment_end(lines: Seq<Seq<char>>, from: int) -> int
    decreases lines.len() - from,
{
    if 0 <= from < lines.len() && is_comment(lines[from]) {
        comment_end(lines, from + 1)
    } else {
        from
    }
}

/// The data rows of a metadata file: the lines after its comment block.
pub open spec fn data_rows(lines: Seq<Seq<char>>) -> Seq<Seq<char>> {
    lines.skip(comment_end(lines, 0))
}

/// Index of the first row at or after `from` that has no column `col`.
pub open spec fn short_row(rows: Seq<Seq<char>>, col: nat, from: int) -> Option<int>
    decreases rows.len() - from,
{
    if from < 0 || from >= rows.len() {
        None
    } else if column(rows[from], col) is None {
        Some(from)
    } else {
        short_row(rows, col, from + 1)
    }
}

/// The id of every row: its column `col`.
pub open spec fn row_ids(rows: Seq<Seq<char>>, col: nat) -> Seq<Seq<char>> {
    Seq::new(rows.len(), |i: int| column(rows[i], col).unwrap())
}

/// The indices of the rows whose id is among `requested`, in file order.
pub open spec fn matching_rows(ids: Seq<Seq<char>>, requested: Seq<Seq<char>>) -> Seq<int>
    decreases ids.len(),
{
    if ids.len() == 0 {
        Seq::empty()
    } else if requested.contains(ids.last()) {
        matching_rows(ids.drop_last(), requested).push(ids.len() - 1)
    } else {
        matching_rows(ids.drop_last(), requested)
    }
}

/// The entries that stand for the rows `picked`.
pub open spec fn entries_of(rows: Seq<Seq<char>>, col: nat, picked: Seq<int>) -> Seq<
    (Seq<char>, int, Seq<char>),
> {
    Seq::new(picked.len(), |j: int| (row_ids(rows, col)[picked[j]], picked[j], rows[picked[j]]))
}

/// What the sample file's header check yields. The header line is the
/// last line of the comment block, and its first column must be `#IID`.
/// In a file that opens with no comment line the first line stands where
/// the header should, and no such line opens with `#IID`.
pub open spec fn header_fault(lines: Seq<Seq<char>>) -> Option<ConsistencyError> {
    let k = comment_end(lines, 0);
    if k == 0 || column(lines[k - 1], 0) != Some("#IID"@) {
        Some(ConsistencyError::SampleHeader)
    } else {
        None
    }
}

/// What scanning the data rows yields. The checks come in scan order:
/// each row's id column, then the number of retained rows against the
/// number of requested ids, then the number of rows against the declared
/// count.
pub open spec fn select_rows(
    rows: Seq<Seq<char>>,
    requested: Seq<Seq<char>>,
    col: nat,
    expected: u32,
) -> Result<Seq<(Seq<char>, int, Seq<char>)>, ConsistencyError> {
    let picked = matching_rows(row_ids(rows, col), requested);
    if short_row(rows, col, 0) is Some {
        Err(ConsistencyError::MissingColumn { row: short_row(rows, col, 0).unwrap() as u64 })
    } else if picked.len() != requested.len() {
        Err(
            ConsistencyError::Selection {
                expected: requested.len() as u64,
                observed: picked.len() as u64,
            },
        )
    } else if rows.len() != expected {
        Err(ConsistencyError::RowCount { expected: expected as u64, observed: rows.len() as u64 })
    } else {
        Ok(entries_of(rows, col, picked))
    }
}

/// What scanning a metadata file yields. `sentinel` asks for the sample
/// file's check of the header line, which comes before the rows are
/// scanned.
pub open spec fn select(
    lines: Seq<Seq<char>>,
    requested: Seq<Seq<char>>,
    col: nat,
    expected: u32,
    sentinel: bool,
) -> Result<Seq<(Seq<char>, int, Seq<char>)>, ConsistencyError> {
    if sentinel && header_fault(lines) is Some {
        Err(header_fault(lines).unwrap())
    } else {
        select_rows(data_rows(lines), requested, col, expected)
    }
}

/// The comment block of a variant metadata file without its last line,
/// and that last line, which names the columns.
pub open spec fn split_header(lines: Seq<Seq<char>>) -> Result<
    (Seq<char>, Seq<char>),
    ConsistencyError,
> {
    let k = comment_end(lines, 0);
    if k == 0 {
        Err(ConsistencyError::MissingHeader)
    } else {
        Ok((concat(lines.take(k - 1)), lines[k - 1]))
    }
}

/// Length of a line in bytes, as `str::len` gives it.
pub open spec fn byte_len(line: Seq<char>) -> int {
    (vstd::utf8::encode_utf8(line).len() as usize) as int
}

/// Sum of the lengths in bytes of the first `n` lines.
pub open spec fn bytes_before(lines: Seq<String>, n: int) -> int
    decreases n,
{
    if n <= 0 {
        0
    } else {
        bytes_before(lines, n - 1) + byte_len(lines[n - 1]@)
    }
}

/// Whether a line begins with the comment marker.
pub fn is_comment_line(line: &str) -> (b: bool)
    ensures
        b == is_comment(line@),
{
    !line.is_empty() && line.get_char(0) == '#'
}

/// Counts the lines of the comment block that opens a metadata file.
pub fn comment_block_len(lines: &Vec<String>) -> (k: usize)
    ensures
        k == comment_end(views(lines@), 0),
        k <= lines.len(),
{
    let mut k: usize = 0;
    while k < lines.len() && is_comment_line(lines[k].as_str())
        invariant
            k <= lines.len(),
            comment_end(views(lines@), 0) == comment_end(views(lines@), k as int),
        decreases lines.len() - k,
    {
        k += 1;
    }
    k
}

fn chars_of_all(strings: &Vec<String>) -> (out: Vec<Vec<char>>)
    ensures
        out.len() == strings.len(),
        forall|i: int| 0 <= i < out.len() ==> (#[trigger] out@[i])@ == strings@[i]@,
{
    let mut out: Vec<Vec<char>> = Vec::new();
    let mut i: usize = 0;
    while i < strings.len()
        invariant
            i <= strings.len(),
            out.len() == i,
            forall|j: int| 0 <= j < i ==> (#[trigger] out@[j])@ == strings@[j]@,
        decreases strings.len() - i,
    {
        out.push(chars_of(strings[i].as_str()));
        i += 1;
    }
    out
}

fn is_requested(requested: &Vec<Vec<char>>, chars: &Vec<char>, a: usize, b: usize) -> (found:
    bool)
    requires
        a <= b <= chars.len(),
    ensures
        found == exists|j: int|
            0 <= j < requested.len() && (#[trigger] requested@[j])@ == chars@.subrange(
                a as int,
                b as int,
            ),
{
    let mut j: usize = 0;
    while j < requested.len()
        invariant
            j <= requested.len(),
            a <= b <= chars.len(),
            forall|i: int|
                0 <= i < j ==> (#[trigger] requested@[i])@ != chars@.subrange(a as int, b as int),
        decreases requested.len() - j,
    {
        if requested[j].len() == b - a && has_at(chars, a, &requested[j]) {
            return true;
        }
        j += 1;
    }
    false
}

/// Checks the header line of a sample file.
fn check_header(lines: &Vec<String>, k: usize) -> (fault: Option<ConsistencyError>)
    requires
        k == comment_end(views(lines@), 0),
        k <= lines.len(),
    ensures
        fault == header_fault(views(lines@)),
{
    if k == 0 {
        return Some(ConsistencyError::SampleHeader);
    }
    let header = chars_of(lines[k - 1].as_str());
    let end = line_end_of(&header);
    let sentinel_chars = chars_of("#IID");
    match field_of(&header, '\t', 0, end, 0) {
        Some((a, b)) => {
            if b - a == sentinel_chars.len() && has_at(&header, a, &sentinel_chars) {
                assert(header@.subrange(a as int, b as int) == sentinel_chars@);
                None
            } else {
                Some(ConsistencyError::SampleHeader)
            }
        },
        None => Some(ConsistencyError::SampleHeader),
    }
}

/// Scans the data rows `lines[k..]`: gives the indices and ids of the rows
/// whose id was asked for, or the index of the first row without an id.
fn scan_rows(lines: &Vec<String>, k: usize, requested: &Vec<String>, id_column: usize) -> (scan:
    Result<(Vec<usize>, Vec<String>), usize>)
    requires
        k <= lines.len(),
    ensures
        match scan {
            Ok((picked, ids)) => {
                &&& short_row(views(lines@).skip(k as int), id_column as nat, 0) is None
                &&& picked@.map_values(|r: usize| r as int) == matching_rows(
                    row_ids(views(lines@).skip(k as int), id_column as nat),
                    views(requested@),
                )
                &&& ids.len() == picked.len()
                &&& forall|j: int|
                    0 <= j < picked.len() ==> 0 <= #[trigger] picked@[j] < lines.len() - k
                        && ids@[j]@ == row_ids(views(lines@).skip(k as int), id_column as nat)[picked@[j] as int]
            },
            Err(row) => short_row(views(lines@).skip(k as int), id_column as nat, 0) == Some(
                row as int,
            ),
        },
{
    let ghost wanted = views(requested@);
    let ghost col = id_column as nat;
    let ghost rows = views(lines@).skip(k as int);
    let ghost ids = row_ids(rows, col);
    let n: usize = lines.len() - k;
    let wanted_chars = chars_of_all(requested);
    let mut picked: Vec<usize> = Vec::new();
    let mut picked_ids: Vec<String> = Vec::new();
    let mut i: usize = 0;
    while i < n
        invariant
            i <= n == lines.len() - k,
            wanted == views(requested@),
            rows == views(lines@).skip(k as int),
            ids == row_ids(rows, col),
            col == id_column as nat,
            wanted_chars.len() == requested.len(),
            forall|j: int|
                0 <= j < wanted_chars.len() ==> (#[trigger] wanted_chars@[j])@ == requested@[j]@,
            short_row(rows, col, 0) == short_row(rows, col, i as int),
            picked.len() == picked_ids.len(),
            picked@.map_values(|r: usize| r as int) == matching_rows(ids.take(i as int), wanted),
            forall|j: int|
                0 <= j < picked.len() ==> 0 <= #[trigger] picked@[j] < i && picked_ids@[j]@
                    == ids[picked@[j] as int],
        decreases n - i,
    {
        let chars = chars_of(lines[k + i].as_str());
        assert(rows[i as int] == chars@);
        let end = line_end_of(&chars);
        match field_of(&chars, '\t', 0, end, id_column) {
            None => {
                assert(column(rows[i as int], col) is None);
                return Err(i);
            },
            Some((a, b)) => {
                let ghost id = chars@.subrange(a as int, b as int);
                assert(column(rows[i as int], col) == Some(id));
                assert(ids[i as int] == id);
                let found = is_requested(&wanted_chars, &chars, a, b);
                assert(found == wanted.contains(id)) by {
                    if found {
                        let j = choose|j: int|
                            0 <= j < wanted_chars.len() && (#[trigger] wanted_chars@[j])@ == id;
                        assert(wanted[j] == id);
                    }
                    if wanted.contains(id) {
                        let j = choose|j: int| 0 <= j < wanted.len() && wanted[j] == id;
                        assert(wanted_chars@[j]@ == id);
                    }
                }
                assert(ids.take(i + 1).drop_last() == ids.take(i as int));
                assert(ids.take(i + 1).last() == id);
                if found {
                    picked.push(i);
                    picked_ids.push(string_of(&chars, a, b));
                    assert(picked@.map_values(|r: usize| r as int) == matching_rows(
                        ids.take(i as int),
                        wanted,
                    ).push(i as int));
                }
            },
        }
        i += 1;
    }
    assert(ids.take(n as int) == ids);
    Ok((picked, picked_ids))
}

/// Builds the entries of the rows `picked` among the data rows `lines[k..]`.
fn make_entries(lines: &Vec<String>, k: usize, picked: &Vec<usize>, ids: &Vec<String>) -> (index:
    SelectionIndex)
    requires
        k <= lines.len(),
        lines.len() - k <= u32::MAX,
        ids.len() == picked.len(),
        forall|j: int| 0 <= j < picked.len() ==> 0 <= #[trigger] picked@[j] < lines.len() - k,
    ensures
        index@ == Seq::new(
            picked.len() as nat,
            |j: int| (ids@[j]@, picked@[j] as int, lines@[k + picked@[j]]@),
        ),
{
    let mut entries: Vec<SelectionEntry> = Vec::new();
    let mut j: usize = 0;
    while j < picked.len()
        invariant
            j <= picked.len() == ids.len(),
            k <= lines.len(),
            lines.len() - k <= u32::MAX,
            forall|t: int| 0 <= t < picked.len() ==> 0 <= #[trigger] picked@[t] < lines.len() - k,
            entries.len() == j,
            forall|t: int|
                0 <= t < j ==> (#[trigger] entries@[t])@ == (
                    ids@[t]@,
                    picked@[t] as int,
                    lines@[k + picked@[t]]@,
                ),
        decreases picked.len() - j,
    {
        let row: usize = picked[j];
        entries.push(
            SelectionEntry {
                id: ids[j].clone(),
                row_index: row as u32,
                raw_line: lines[k + row].clone(),
            },
        );
        j += 1;
    }
    let index = SelectionIndex { entries };
    assert(index@ =~= Seq::new(
        picked.len() as nat,
        |j: int| (ids@[j]@, picked@[j] as int, lines@[k + picked@[j]]@),
    ));
    index
}

/// Scans a metadata file once and keeps the rows whose id, in column
/// `id_column`, is among `requested`.
pub fn build_index(
    lines: &Vec<String>,
    requested: &Vec<String>,
    id_column: usize,
    expected: u32,
    sentinel: bool,
) -> (built: Result<SelectionIndex, ConsistencyError>)
    ensures
        match select(views(lines@), views(requested@), id_column as nat, expected, sentinel) {
            Ok(entries) => built matches Ok(index) && index@ == entries,
            Err(e) => built == Err::<SelectionIndex, ConsistencyError>(e),
        },
{
    let k = comment_block_len(lines);
    if sentinel {
        match check_header(lines, k) {
            Some(e) => {
                return Err(e);
            },
            None => {},
        }
    }
    let ghost rows = data_rows(views(lines@));
    let ghost col = id_column as nat;
    let n: usize = lines.len() - k;
    match scan_rows(lines, k, requested, id_column) {
        Err(row) => Err(ConsistencyError::MissingColumn { row: row as u64 }),
        Ok((picked, ids)) => {
            if picked.len() != requested.len() {
                return Err(
                    ConsistencyError::Selection {
                        expected: requested.len() as u64,
                        observed: picked.len() as u64,
                    },
                );
            }
            if n as u64 != expected as u64 {
                return Err(
                    ConsistencyError::RowCount { expected: expected as u64, observed: n as u64 },
                );
            }
            let index = make_entries(lines, k, &picked, &ids);
            assert(index@ =~= entries_of(rows, col, picked@.map_values(|r: usize| r as int)));
            Ok(index)
        },
    }
}

impl SelectionIndex {
    /// The row indices of the entries, in order.
    pub fn row_indices(&self) -> (rows: Vec<u32>)
        ensures
            rows@ == entry_rows(self@),
    {
        let mut rows: Vec<u32> = Vec::new();
        let mut i: usize = 0;
        while i < self.entries.len()
            invariant
                i <= self.entries.len(),
                rows@ == entry_rows(self@).take(i as int),
            decreases self.entries.len() - i,
        {
            rows.push(self.entries[i].row_index);
            assert(rows@ == entry_rows(self@).take(i + 1));
            i += 1;
        }
        assert(entry_rows(self@).take(i as int) == entry_rows(self@));
        rows
    }

    /// The ids of the entries, in order.
    pub fn ids(&self) -> (ids: Vec<String>)
        ensures
            views(ids@) == entry_ids(self@),
    {
        let mut ids: Vec<String> = Vec::new();
        let mut i: usize = 0;
        while i < self.entries.len()
            invariant
                i <= self.entries.len(),
                ids.len() == i,
                views(ids@) == entry_ids(self@).take(i as int),
            decreases self.entries.len() - i,
        {
            let ghost before = ids@;
            ids.push(self.entries[i].id.clone());
            assert forall|j: int| 0 <= j < i + 1 implies views(ids@)[j] == entry_ids(self@)[j] by {
                if j < i {
                    assert(views(before)[j] == entry_ids(self@).take(i as int)[j]);
                }
            }
            assert(views(ids@) =~= entry_ids(self@).take(i + 1));
            i += 1;
        }
        assert(entry_ids(self@).take(i as int) == entry_ids(self@));
        ids
    }
}

impl Pfile {
    /// Indexes the variant metadata file for the requested variant ids.
    /// The id of a variant is the third column of its row.
    pub fn filter_pvar(&self, pvar_lines: &Vec<String>, variant_ids: &Vec<String>) -> (built:
        Result<SelectionIndex, ConsistencyError>)
        ensures
            match select(
                views(pvar_lines@),
                views(variant_ids@),
                VARIANT_ID_COLUMN as nat,
                self.num_variants,
                false,
            ) {
                Ok(entries) => built matches Ok(index) && index@ == entries,
                Err(e) => built == Err::<SelectionIndex, ConsistencyError>(e),
            },
    {
        build_index(pvar_lines, variant_ids, VARIANT_ID_COLUMN, self.num_variants, false)
    }

    /// Indexes the sample metadata file for the requested sample ids. The
    /// id of a sample is the first column of its row, and the first column
    /// of the header line must be `#IID`.
    pub fn filter_psam(&self, psam_lines: &Vec<String>, sample_ids: &Vec<String>) -> (built:
        Result<SelectionIndex, ConsistencyError>)
        ensures
            match select(
                views(psam_lines@),
                views(sample_ids@),
                SAMPLE_ID_COLUMN as nat,
                self.num_samples,
                true,
            ) {
                Ok(entries) => built matches Ok(index) && index@ == entries,
                Err(e) => built == Err::<SelectionIndex, ConsistencyError>(e),
            },
    {
        build_index(psam_lines, sample_ids, SAMPLE_ID_COLUMN, self.num_samples, true)
    }

    /// Splits off the comment block of the variant metadata file: the
    /// comment lines before the column-header line, verbatim and joined,
    /// and the column-header line itself.
    pub fn read_pvar_header(&self, pvar_lines: &Vec<String>) -> (header: Result<
        (String, String),
        ConsistencyError,
    >)
        ensures
            match split_header(views(pvar_lines@)) {
                Ok((comments, names)) => header matches Ok(h) && h.0@ == comments && h.1@ == names,
                Err(e) => header == Err::<(String, String), ConsistencyError>(e),
            },
    {
        let k = comment_block_len(pvar_lines);
        if k == 0 {
            return Err(ConsistencyError::MissingHeader);
        }
        let ghost all = views(pvar_lines@);
        let mut comments = String::new();
        let mut i: usize = 0;
        while i < k - 1
            invariant
                i <= k - 1,
                k <= pvar_lines.len(),
                all == views(pvar_lines@),
                comments@ == concat(all.take(i as int)),
            decreases k - 1 - i,
        {
            comments.append(pvar_lines[i].as_str());
            assert(all.take(i + 1).drop_last() == all.take(i as int));
            i += 1;
        }
        Ok((comments, pvar_lines[k - 1].clone()))
    }

    /// Gives the offset in bytes, from the start of a metadata file, of the
    /// column names: the position just after the comment marker of the
    /// last line of the comment block. `None` where the file has no such
    /// line, or where the offset does not fit.
    pub fn find_metadata_file_header_start(lines: &Vec<String>) -> (start: Option<u64>)
        ensures
            match start {
                Some(at) => comment_end(views(lines@), 0) > 0 && at == bytes_before(
                    lines@,
                    comment_end(views(lines@), 0) - 1,
                ) + 1,
                None => comment_end(views(lines@), 0) == 0 || bytes_before(
                    lines@,
                    comment_end(views(lines@), 0) - 1,
                ) + 1 > u64::MAX,
            },
    {
        let k = comment_block_len(lines);
        if k == 0 {
            return None;
        }
        let mut total: u64 = 0;
        let mut i: usize = 0;
        while i < k - 1
            invariant
                i <= k - 1,
                k <= lines.len(),
                k == comment_end(views(lines@), 0),
                total == bytes_before(lines@, i as int),
            decreases k - 1 - i,
        {
            let len = lines[i].as_str().len() as u64;
            if len > u64::MAX - total {
                assert(bytes_before(lines@, i + 1) == total + len);
                proof {
                    lemma_bytes_before_grows(lines@, i + 1, k - 1);
                }
                return None;
            }
            total = total + len;
            i += 1;
        }
        if total == u64::MAX {
            None
        } else {
            Some(total + 1)
        }
    }
}

/// The byte count of a longer prefix of the lines is no smaller.
pub proof fn lemma_bytes_before_grows(lines: Seq<String>, a: int, b: int)
    requires
        a <= b,
    ensures
        bytes_before(lines, a) <= bytes_before(lines, b),
    decreases b - a,
{
    if a < b {
        lemma_bytes_before_grows(lines, a, b - 1);
    }
}

/// How many rows have the id `id`.
pub open spec fn occurrences(ids: Seq<Seq<char>>, id: Seq<char>) -> nat
    decreases ids.len(),
{
    if ids.len() == 0 {
        0
    } else if ids.last() == id {
        occurrences(ids.drop_last(), id) + 1
    } else {
        occurrences(ids.drop_last(), id)
    }
}

/// How many rows the requested ids have between them, each id counted
/// with its rows.
pub open spec fn requested_occurrences(ids: Seq<Seq<char>>, requested: Seq<Seq<char>>) -> nat
    decreases requested.len(),
{
    if requested.len() == 0 {
        0
    } else {
        requested_occurrences(ids, requested.drop_last()) + occurrences(ids, requested.last())
    }
}

proof fn lemma_requested_occurrences_none(requested: Seq<Seq<char>>)
    ensures
        requested_occurrences(Seq::empty(), requested) == 0,
    decreases requested.len(),
{
    if requested.len() > 0 {
        lemma_requested_occurrences_none(requested.drop_last());
    }
}

proof fn lemma_requested_occurrences_push(
    ids: Seq<Seq<char>>,
    id: Seq<char>,
    requested: Seq<Seq<char>>,
)
    requires
        requested.no_duplicates(),
    ensures
        requested_occurrences(ids.push(id), requested) == requested_occurrences(ids, requested) + (
        if requested.contains(id) {
            1nat
        } else {
            0nat
        }),
    decreases requested.len(),
{
    assert(ids.push(id).drop_last() == ids);
    if requested.len() > 0 {
        let rest = requested.drop_last();
        lemma_requested_occurrences_push(ids, id, rest);
        if requested.last() == id {
            if rest.contains(id) {
                let j = choose|j: int| 0 <= j < rest.len() && rest[j] == id;
                assert(requested[j] == requested[requested.len() - 1]);
            }
            assert(requested.contains(id));
        } else {
            if requested.contains(id) {
                let j = choose|j: int| 0 <= j < requested.len() && requested[j] == id;
                assert(rest[j] == id);
            }
            if rest.contains(id) {
                let j = choose|j: int| 0 <= j < rest.len() && rest[j] == id;
                assert(requested[j] == id);
            }
        }
    }
}

proof fn lemma_matching_count(ids: Seq<Seq<char>>, requested: Seq<Seq<char>>)
    requires
        requested.no_duplicates(),
    ensures
        matching_rows(ids, requested).len() == requested_occurrences(ids, requested),
    decreases ids.len(),
{
    if ids.len() == 0 {
        lemma_requested_occurrences_none(requested);
        assert(ids == Seq::<Seq<char>>::empty());
    } else {
        lemma_matching_count(ids.drop_last(), requested);
        lemma_requested_occurrences_push(ids.drop_last(), ids.last(), requested);
        assert(ids.drop_last().push(ids.last()) == ids);
    }
}

proof fn lemma_requested_once(ids: Seq<Seq<char>>, requested: Seq<Seq<char>>)
    requires
        forall|j: int| 0 <= j < requested.len() ==> occurrences(ids, #[trigger] requested[j]) == 1,
    ensures
        requested_occurrences(ids, requested) == requested.len(),
    decreases requested.len(),
{
    if requested.len() > 0 {
        let rest = requested.drop_last();
        assert forall|j: int| 0 <= j < rest.len() implies occurrences(ids, #[trigger] rest[j])
            == 1 by {
            assert(rest[j] == requested[j]);
        }
        lemma_requested_once(ids, rest);
    }
}

/// The retained rows are rows whose id was requested, every such row is
/// among them, and they come in file order.
pub proof fn lemma_matching_rows(ids: Seq<Seq<char>>, requested: Seq<Seq<char>>)
    ensures
        forall|a: int|
            0 <= a < matching_rows(ids, requested).len() ==> 0 <= #[trigger] matching_rows(
                ids,
                requested,
            )[a] < ids.len() && requested.contains(ids[matching_rows(ids, requested)[a]]),
        forall|a: int, b: int|
            0 <= a < b < matching_rows(ids, requested).len() ==> #[trigger] matching_rows(
                ids,
                requested,
            )[a] < #[trigger] matching_rows(ids, requested)[b],
        forall|i: int|
            0 <= i < ids.len() && requested.contains(#[trigger] ids[i]) ==> matching_rows(
                ids,
                requested,
            ).contains(i),
    decreases ids.len(),
{
    if ids.len() > 0 {
        let rest = ids.drop_last();
        let m = matching_rows(ids, requested);
        let r = matching_rows(rest, requested);
        lemma_matching_rows(rest, requested);
        assert forall|a: int| 0 <= a < m.len() implies 0 <= #[trigger] m[a] < ids.len()
            && requested.contains(ids[m[a]]) by {
            if a < r.len() {
                assert(m[a] == r[a]);
                assert(rest[r[a]] == ids[r[a]]);
            }
        }
        assert forall|a: int, b: int| 0 <= a < b < m.len() implies #[trigger] m[a] < #[trigger] m[b] by {
            assert(m[a] == r[a]);
            if b < r.len() {
                assert(m[b] == r[b]);
            }
        }
        assert forall|i: int| 0 <= i < ids.len() && requested.contains(#[trigger] ids[i]) implies m.contains(
            i,
        ) by {
            if i < rest.len() {
                assert(rest[i] == ids[i]);
                let a = choose|a: int| 0 <= a < r.len() && r[a] == i;
                assert(m[a] == i);
            } else {
                assert(m[m.len() - 1] == i);
            }
        }
    }
}

/// Requesting N distinct ids, each the id of exactly one row, retains
/// exactly N rows. By `lemma_matching_rows` they stand in file order,
/// whatever the order of the request.
pub proof fn lemma_selection_length(ids: Seq<Seq<char>>, requested: Seq<Seq<char>>)
    requires
        requested.no_duplicates(),
        forall|j: int| 0 <= j < requested.len() ==> occurrences(ids, #[trigger] requested[j]) == 1,
    ensures
        matching_rows(ids, requested).len() == requested.len(),
{
    lemma_matching_count(ids, requested);
    lemma_requested_once(ids, requested);
}

/// Where every row's id is requested, every row is retained, once and in
/// its place.
pub proof fn lemma_all_rows_match(ids: Seq<Seq<char>>, requested: Seq<Seq<char>>)
    requires
        forall|i: int| 0 <= i < ids.len() ==> requested.contains(#[trigger] ids[i]),
    ensures
        matching_rows(ids, requested) == Seq::new(ids.len(), |i: int| i),
    decreases ids.len(),
{
    if ids.len() > 0 {
        let rest = ids.drop_last();
        assert forall|i: int| 0 <= i < rest.len() implies requested.contains(#[trigger] rest[i]) by {
            assert(rest[i] == ids[i]);
        }
        lemma_all_rows_match(rest, requested);
        assert(requested.contains(ids[ids.len() - 1]));
    }
    assert(matching_rows(ids, requested) =~= Seq::new(ids.len(), |i: int| i));
}

/// A scan for N distinct ids, each the id of exactly one row of a file
/// whose rows all have an id and are as many as declared, succeeds with
/// exactly N entries, in file order.
pub proof fn lemma_select_distinct(
    rows: Seq<Seq<char>>,
    requested: Seq<Seq<char>>,
    col: nat,
    expected: u32,
)
    requires
        short_row(rows, col, 0) is None,
        rows.len() == expected,
        requested.no_duplicates(),
        forall|j: int|
            0 <= j < requested.len() ==> occurrences(row_ids(rows, col), #[trigger] requested[j])
                == 1,
    ensures
        select_rows(rows, requested, col, expected) matches Ok(entries) && entries.len()
            == requested.len() && (forall|a: int, b: int|
            0 <= a < b < entries.len() ==> (#[trigger] entries[a]).1 < (#[trigger] entries[b]).1)
            && (forall|a: int|
            0 <= a < entries.len() ==> requested.contains((#[trigger] entries[a]).0)),
{
    let ids = row_ids(rows, col);
    lemma_selection_length(ids, requested);
    lemma_matching_rows(ids, requested);
}

/// A scan for the ids of all the rows retains every row exactly once:
/// entry number `i` is row number `i`.
pub proof fn lemma_select_all(
    rows: Seq<Seq<char>>,
    requested: Seq<Seq<char>>,
    col: nat,
    expected: u32,
)
    requires
        short_row(rows, col, 0) is None,
        rows.len() == expected,
        requested.len() == rows.len(),
        forall|i: int| 0 <= i < rows.len() ==> requested.contains(#[trigger] row_ids(rows, col)[i]),
    ensures
        select_rows(rows, requested, col, expected) matches Ok(entries) && entries.len()
            == rows.len() && (forall|i: int|
            0 <= i < entries.len() ==> (#[trigger] entries[i]).1 == i && entries[i].2 == rows[i]),
{
    lemma_all_rows_match(row_ids(rows, col), requested);
}

/// A metadata file whose number of rows differs from the declared count
/// is never indexed: the scan fails, whatever was requested.
pub proof fn lemma_count_mismatch_fails(
    lines: Seq<Seq<char>>,
    requested: Seq<Seq<char>>,
    col: nat,
    expected: u32,
    sentinel: bool,
)
    requires
        data_rows(lines).len() != expected,
    ensures
        select(lines, requested, col, expected, sentinel) is Err,
        !sentinel || header_fault(lines) is None ==> (short_row(data_rows(lines), col, 0) is None
            && matching_rows(row_ids(data_rows(lines), col), requested).len() == requested.len()
            ==> select(lines, requested, col, expected, sentinel) == Err::<
            Seq<(Seq<char>, int, Seq<char>)>,
            ConsistencyError,
        >(
            ConsistencyError::RowCount {
                expected: expected as u64,
                observed: data_rows(lines).len() as u64,
            },
        )),
{
}

/// What holds of every index that a scan builds: it has one entry per
/// requested id, the file has as many rows as declared, and the entries
/// are rows of the file with a requested id, each with its own line, in
/// file order.
pub proof fn lemma_selection_invariant(
    lines: Seq<Seq<char>>,
    requested: Seq<Seq<char>>,
    col: nat,
    expected: u32,
    sentinel: bool,
)
    ensures
        select(lines, requested, col, expected, sentinel) matches Ok(entries) ==> {
            &&& entries.len() == requested.len()
            &&& data_rows(lines).len() == expected
            &&& forall|a: int|
                0 <= a < entries.len() ==> {
                    let (id, row, line) = #[trigger] entries[a];
                    &&& 0 <= row < expected
                    &&& requested.contains(id)
                    &&& line == data_rows(lines)[row]
                    &&& column(line, col) == Some(id)
                }
            &&& forall|a: int, b: int|
                0 <= a < b < entries.len() ==> (#[trigger] entries[a]).1 < (#[trigger] entries[b]).1
        },
{
    let rows = data_rows(lines);
    let ids = row_ids(rows, col);
    lemma_matching_rows(ids, requested);
    lemma_no_short_row(rows, col, 0);
}

/// Where no row from `from` on lacks column `col`, every such row has it.
pub proof fn lemma_no_short_row(rows: Seq<Seq<char>>, col: nat, from: int)
    requires
        0 <= from,
    ensures
        short_row(rows, col, from) is None ==> forall|i: int|
            from <= i < rows.len() ==> (#[trigger] column(rows[i], col)) is Some,
    decreases rows.len() - from,
{
    if from < rows.len() && column(rows[from], col) is Some {
        lemma_no_short_row(rows, col, from + 1);
    }
}

} // verus!
