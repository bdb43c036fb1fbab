//! The variant-call text synthesizer: header pass-through, the column
//! line, and one line of genotypes per selected variant.

use vstd::prelude::*;
use vstd::string::*;
use crate::container::RecordGeometry;
use crate::container::genotype_of_record;
use crate::container::record_size_bytes;
use crate::error::ConversionError;
use crate::error::IoError;
use crate::genotype::GenotypeCode;
use crate::container::lemma_batched_read_agrees;
use crate::container::lemma_declared_cells_decode;
use crate::container::HEADER_SIZE;
use crate::metadata::comment_end;
use crate::metadata::data_rows;
use crate::metadata::entry_ids;
use crate::metadata::entry_rows;
use crate::metadata::header_fault;
use crate::metadata::lemma_select_all;
use crate::metadata::row_ids;
use crate::metadata::short_row;
use crate::metadata::SelectionIndex;
use crate::metadata::select;
use crate::metadata::split_header;
use crate::metadata::SAMPLE_ID_COLUMN;
use crate::metadata::VARIANT_ID_COLUMN;
use crate::pfile::Pfile;
use crate::text::join;
use crate::text::trim;
use crate::text::trimmed;
use crate::text::views;

verus! {

/// The genotypes of the samples `sample_rows` at one variant of a
/// container image, or the failure of the first sample that cannot be read.
pub open spec fn decode_samples(
    g: RecordGeometry,
    pgen: Seq<u8>,
    variant_row: u32,
    sample_rows: Seq<u32>,
) -> Result<Seq<GenotypeCode>, IoError>
    decreases sample_rows.len(),
{
    if sample_rows.len() == 0 {
        Ok(Seq::empty())
    } else {
        match decode_samples(g, pgen, variant_row, sample_rows.drop_last()) {
            Err(e) => Err(e),
            Ok(codes) => match g.genotype_in(pgen, variant_row, sample_rows.last()) {
                Err(e) => Err(e),
                Ok(code) => Ok(codes.push(code)),
            },
        }
    }
}

/// The genotypes of the samples `sample_rows` in the record of one
/// variant, or the failure of the first sample that the record is too
/// short for.
pub open spec fn decode_record_samples(record: Seq<u8>, variant_row: u32, sample_rows: Seq<u32>) -> Result<
    Seq<GenotypeCode>,
    IoError,
>
    decreases sample_rows.len(),
{
    if sample_rows.len() == 0 {
        Ok(Seq::empty())
    } else {
        match decode_record_samples(record, variant_row, sample_rows.drop_last()) {
            Err(e) => Err(e),
            Ok(codes) => match RecordGeometry::genotype_in_record(
                record,
                variant_row,
                sample_rows.last(),
            ) {
                Err(e) => Err(e),
                Ok(code) => Ok(codes.push(code)),
            },
        }
    }
}

/// The genotype columns of a line: each code behind a tab.
pub open spec fn genotype_columns(codes: Seq<GenotypeCode>) -> Seq<char>
    decreases codes.len(),
{
    if codes.len() == 0 {
        Seq::empty()
    } else {
        genotype_columns(codes.drop_last()) + seq!['\t'] + codes.last().vcf_text()
    }
}

/// A trimmed metadata line made into an output line: the line, the
/// format tag, the genotype columns and a line feed.
pub open spec fn tagged_line(line: Seq<char>, codes: Seq<GenotypeCode>) -> Seq<char> {
    line + "\tGT"@ + genotype_columns(codes) + seq!['\n']
}

/// The output line of one variant: its metadata line, trimmed and tagged.
pub open spec fn variant_line(raw_line: Seq<char>, codes: Seq<GenotypeCode>) -> Seq<char> {
    tagged_line(trimmed(raw_line), codes)
}

/// Everything before the first variant line, for column names that are
/// trimmed already: the two provenance lines, the comment block as it was
/// read, and the column line with the sample ids.
pub open spec fn head_text(comments: Seq<char>, names: Seq<char>, sample_ids: Seq<Seq<char>>) -> Seq<
    char,
> {
    "##fileformat=VCFv4.2\n"@ + "##source=pgen-rs\n"@ + comments + names + "\tFORMAT\t"@ + join(
        sample_ids,
        seq!['\t'],
    ) + seq!['\n']
}

/// Everything before the first variant line, for the column-header line
/// as it was read.
pub open spec fn vcf_head(comments: Seq<char>, column_names: Seq<char>, sample_ids: Seq<Seq<char>>) -> Seq<
    char,
> {
    head_text(comments, trimmed(column_names), sample_ids)
}

/// The genotypes of every selected variant, one row of codes per variant
/// in selection order, or the first failure in that order.
pub open spec fn genotype_table(
    g: RecordGeometry,
    pgen: Seq<u8>,
    variants: Seq<(Seq<char>, int, Seq<char>)>,
    sample_rows: Seq<u32>,
) -> Result<Seq<Seq<GenotypeCode>>, IoError>
    decreases variants.len(),
{
    if variants.len() == 0 {
        Ok(Seq::empty())
    } else {
        match genotype_table(g, pgen, variants.drop_last(), sample_rows) {
            Err(e) => Err(e),
            Ok(table) => match decode_samples(g, pgen, variants.last().1 as u32, sample_rows) {
                Err(e) => Err(e),
                Ok(codes) => Ok(table.push(codes)),
            },
        }
    }
}

/// The variant lines of a genotype table, one after another.
pub open spec fn variant_lines(
    variants: Seq<(Seq<char>, int, Seq<char>)>,
    table: Seq<Seq<GenotypeCode>>,
) -> Seq<char>
    decreases table.len(),
{
    if table.len() == 0 {
        Seq::empty()
    } else {
        variant_lines(variants, table.drop_last()) + variant_line(
            variants[table.len() - 1].2,
            table.last(),
        )
    }
}

/// The whole output text for a container image and the lines of its two
/// metadata files. The variant header is split off first, then the
/// variants are indexed, then the samples, then the genotypes are decoded;
/// the first failure in that order is the result.
pub open spec fn conversion(
    p: Pfile,
    pvar_lines: Seq<Seq<char>>,
    psam_lines: Seq<Seq<char>>,
    pgen: Seq<u8>,
    sample_ids: Seq<Seq<char>>,
    variant_ids: Seq<Seq<char>>,
) -> Result<Seq<char>, ConversionError> {
    let g = RecordGeometry {
        record_size_bytes: record_size_bytes(p.num_samples as int) as u32,
    };
    match split_header(pvar_lines) {
        Err(e) => Err(ConversionError::Consistency(e)),
        Ok((comments, names)) => match select(
            pvar_lines,
            variant_ids,
            VARIANT_ID_COLUMN as nat,
            p.num_variants,
            false,
        ) {
            Err(e) => Err(ConversionError::Consistency(e)),
            Ok(variants) => match select(
                psam_lines,
                sample_ids,
                SAMPLE_ID_COLUMN as nat,
                p.num_samples,
                true,
            ) {
                Err(e) => Err(ConversionError::Consistency(e)),
                Ok(samples) => match genotype_table(g, pgen, variants, entry_rows(samples)) {
                    Err(e) => Err(ConversionError::Io(e)),
                    Ok(table) => Ok(
                        vcf_head(comments, names, entry_ids(samples)) + variant_lines(
                            variants,
                            table,
                        ),
                    ),
                },
            },
        },
    }
}

/// Decodes the requested samples of one variant from a container image.
pub fn decode_variant(g: &RecordGeometry, pgen: &[u8], variant_row: u32, sample_rows: &Vec<u32>) -> (codes:
    Result<Vec<GenotypeCode>, IoError>)
    ensures
        match decode_samples(*g, pgen@, variant_row, sample_rows@) {
            Ok(expected) => codes matches Ok(v) && v@ == expected,
            Err(e) => codes == Err::<Vec<GenotypeCode>, IoError>(e),
        },
        codes matches Ok(v) ==> v.len() == sample_rows.len(),
{
    let mut out: Vec<GenotypeCode> = Vec::new();
    let mut i: usize = 0;
    while i < sample_rows.len()
        invariant
            i <= sample_rows.len(),
            out.len() == i,
            decode_samples(*g, pgen@, variant_row, sample_rows@.take(i as int)) == Ok::<
                Seq<GenotypeCode>,
                IoError,
            >(out@),
        decreases sample_rows.len() - i,
    {
        assert(sample_rows@.take(i + 1).drop_last() == sample_rows@.take(i as int));
        match g.genotype_at(pgen, variant_row, sample_rows[i]) {
            Ok(code) => {
                out.push(code);
            },
            Err(e) => {
                proof {
                    lemma_decode_samples_fails(*g, pgen@, variant_row, sample_rows@, i + 1);
                }
                return Err(e);
            },
        }
        i += 1;
    }
    assert(sample_rows@.take(i as int) == sample_rows@);
    Ok(out)
}

/// Decodes the requested samples of one variant from its record, read on
/// its own.
pub fn decode_record(record: &[u8], variant_row: u32, sample_rows: &Vec<u32>) -> (codes: Result<
    Vec<GenotypeCode>,
    IoError,
>)
    ensures
        match decode_record_samples(record@, variant_row, sample_rows@) {
            Ok(expected) => codes matches Ok(v) && v@ == expected,
            Err(e) => codes == Err::<Vec<GenotypeCode>, IoError>(e),
        },
        codes matches Ok(v) ==> v.len() == sample_rows.len(),
{
    let mut out: Vec<GenotypeCode> = Vec::new();
    let mut i: usize = 0;
    while i < sample_rows.len()
        invariant
            i <= sample_rows.len(),
            out.len() == i,
            decode_record_samples(record@, variant_row, sample_rows@.take(i as int)) == Ok::<
                Seq<GenotypeCode>,
                IoError,
            >(out@),
        decreases sample_rows.len() - i,
    {
        assert(sample_rows@.take(i + 1).drop_last() == sample_rows@.take(i as int));
        match genotype_of_record(record, variant_row, sample_rows[i]) {
            Ok(code) => {
                out.push(code);
            },
            Err(e) => {
                proof {
                    lemma_decode_record_fails(record@, variant_row, sample_rows@, i + 1);
                }
                return Err(e);
            },
        }
        i += 1;
    }
    assert(sample_rows@.take(i as int) == sample_rows@);
    Ok(out)
}

/// Makes a trimmed metadata line into the output line of its variant.
pub fn tag_variant_line(line: &str, codes: &Vec<GenotypeCode>) -> (tagged: String)
    ensures
        tagged@ == tagged_line(line@, codes@),
{
    let mut tagged = String::new();
    tagged.append(line);
    tagged.append("\tGT");
    let ghost start = tagged@;
    proof {
        reveal_strlit("\t");
        reveal_strlit("\n");
    }
    assert("\t"@ == seq!['\t']);
    assert("\n"@ == seq!['\n']);
    let mut i: usize = 0;
    while i < codes.len()
        invariant
            i <= codes.len(),
            "\t"@ == seq!['\t'],
            tagged@ == start + genotype_columns(codes@.take(i as int)),
        decreases codes.len() - i,
    {
        assert(codes@.take(i + 1).drop_last() == codes@.take(i as int));
        tagged.append("\t");
        tagged.append(codes[i].as_vcf());
        i += 1;
    }
    assert(codes@.take(i as int) == codes@);
    tagged.append("\n");
    assert(tagged@ == tagged_line(line@, codes@));
    tagged
}

/// Renders the output line of one variant from its metadata line as it
/// was read.
pub fn render_variant_line(raw_line: &str, codes: &Vec<GenotypeCode>) -> (line: String)
    ensures
        line@ == variant_line(raw_line@, codes@),
{
    let trimmed_line = trim(raw_line);
    tag_variant_line(trimmed_line.as_str(), codes)
}

/// Composes everything that comes before the first variant line from
/// column names that are trimmed already.
pub fn compose_head(comments: &str, names: &str, sample_ids: &Vec<String>) -> (head: String)
    ensures
        head@ == head_text(comments@, names@, views(sample_ids@)),
{
    let mut head = String::new();
    head.append("##fileformat=VCFv4.2\n");
    head.append("##source=pgen-rs\n");
    head.append(comments);
    head.append(names);
    head.append("\tFORMAT\t");
    let ghost start = head@;
    let ghost ids = views(sample_ids@);
    proof {
        reveal_strlit("\t");
        reveal_strlit("\n");
    }
    assert("\t"@ == seq!['\t']);
    assert("\n"@ == seq!['\n']);
    let mut i: usize = 0;
    while i < sample_ids.len()
        invariant
            i <= sample_ids.len(),
            ids == views(sample_ids@),
            "\t"@ == seq!['\t'],
            head@ == start + join(ids.take(i as int), seq!['\t']),
        decreases sample_ids.len() - i,
    {
        assert(ids.take(i + 1).drop_last() == ids.take(i as int));
        if i > 0 {
            head.append("\t");
        }
        head.append(sample_ids[i].as_str());
        i += 1;
    }
    assert(ids.take(i as int) == ids);
    head.append("\n");
    assert(head@ == head_text(comments@, names@, views(sample_ids@)));
    head
}

/// Renders everything that comes before the first variant line from the
/// column-header line as it was read.
pub fn render_head(comments: &str, column_names: &str, sample_ids: &Vec<String>) -> (head: String)
    ensures
        head@ == vcf_head(comments@, column_names@, views(sample_ids@)),
{
    let names = trim(column_names);
    compose_head(comments, names.as_str(), sample_ids)
}

/// Where decoding a prefix of the samples fails, decoding all of them
/// fails in the same way.
pub proof fn lemma_decode_samples_fails(
    g: RecordGeometry,
    pgen: Seq<u8>,
    variant_row: u32,
    sample_rows: Seq<u32>,
    n: int,
)
    requires
        0 <= n <= sample_rows.len(),
        decode_samples(g, pgen, variant_row, sample_rows.take(n)) is Err,
    ensures
        decode_samples(g, pgen, variant_row, sample_rows) == decode_samples(
            g,
            pgen,
            variant_row,
            sample_rows.take(n),
        ),
    decreases sample_rows.len() - n,
{
    if n < sample_rows.len() {
        assert(sample_rows.take(n + 1).drop_last() == sample_rows.take(n));
        lemma_decode_samples_fails(g, pgen, variant_row, sample_rows, n + 1);
    } else {
        assert(sample_rows.take(n) == sample_rows);
    }
}

/// Where decoding a prefix of the samples from a record fails, decoding
/// all of them fails in the same way.
pub proof fn lemma_decode_record_fails(
    record: Seq<u8>,
    variant_row: u32,
    sample_rows: Seq<u32>,
    n: int,
)
    requires
        0 <= n <= sample_rows.len(),
        decode_record_samples(record, variant_row, sample_rows.take(n)) is Err,
    ensures
        decode_record_samples(record, variant_row, sample_rows) == decode_record_samples(
            record,
            variant_row,
            sample_rows.take(n),
        ),
    decreases sample_rows.len() - n,
{
    if n < sample_rows.len() {
        assert(sample_rows.take(n + 1).drop_last() == sample_rows.take(n));
        lemma_decode_record_fails(record, variant_row, sample_rows, n + 1);
    } else {
        assert(sample_rows.take(n) == sample_rows);
    }
}

/// Where decoding a prefix of the selected variants fails, decoding all
/// of them fails in the same way.
pub proof fn lemma_genotype_table_fails(
    g: RecordGeometry,
    pgen: Seq<u8>,
    variants: Seq<(Seq<char>, int, Seq<char>)>,
    sample_rows: Seq<u32>,
    n: int,
)
    requires
        0 <= n <= variants.len(),
        genotype_table(g, pgen, variants.take(n), sample_rows) is Err,
    ensures
        genotype_table(g, pgen, variants, sample_rows) == genotype_table(
            g,
            pgen,
            variants.take(n),
            sample_rows,
        ),
    decreases variants.len() - n,
{
    if n < variants.len() {
        assert(variants.take(n + 1).drop_last() == variants.take(n));
        lemma_genotype_table_fails(g, pgen, variants, sample_rows, n + 1);
    } else {
        assert(variants.take(n) == variants);
    }
}

/// A decoded variant has one genotype per requested sample, each the
/// genotype of that sample's own cell.
pub proof fn lemma_decode_samples_shape(
    g: RecordGeometry,
    pgen: Seq<u8>,
    variant_row: u32,
    sample_rows: Seq<u32>,
)
    ensures
        decode_samples(g, pgen, variant_row, sample_rows) matches Ok(codes) ==> codes.len()
            == sample_rows.len() && (forall|j: int|
            0 <= j < codes.len() ==> g.genotype_in(pgen, variant_row, sample_rows[j]) == Ok::<
                GenotypeCode,
                IoError,
            >(#[trigger] codes[j])),
        (forall|j: int|
            0 <= j < sample_rows.len() ==> (#[trigger] g.genotype_in(
                pgen,
                variant_row,
                sample_rows[j],
            )) is Ok) ==> decode_samples(g, pgen, variant_row, sample_rows) is Ok,
    decreases sample_rows.len(),
{
    if sample_rows.len() > 0 {
        let rest = sample_rows.drop_last();
        lemma_decode_samples_shape(g, pgen, variant_row, rest);
        if forall|j: int|
            0 <= j < sample_rows.len() ==> (#[trigger] g.genotype_in(
                pgen,
                variant_row,
                sample_rows[j],
            )) is Ok {
            assert forall|j: int| 0 <= j < rest.len() implies (#[trigger] g.genotype_in(
                pgen,
                variant_row,
                rest[j],
            )) is Ok by {
                assert(rest[j] == sample_rows[j]);
            }
            assert(g.genotype_in(pgen, variant_row, sample_rows[sample_rows.len() - 1]) is Ok);
        }
    }
}

/// A genotype table has one row per selected variant, in selection order,
/// and each row is what decoding that variant gives: one genotype per
/// selected sample.
pub proof fn lemma_genotype_table_shape(
    g: RecordGeometry,
    pgen: Seq<u8>,
    variants: Seq<(Seq<char>, int, Seq<char>)>,
    sample_rows: Seq<u32>,
)
    ensures
        genotype_table(g, pgen, variants, sample_rows) matches Ok(table) ==> table.len()
            == variants.len() && (forall|i: int|
            0 <= i < table.len() ==> (#[trigger] table[i]).len() == sample_rows.len()
                && decode_samples(g, pgen, variants[i].1 as u32, sample_rows) == Ok::<
                Seq<GenotypeCode>,
                IoError,
            >(table[i])),
        (forall|i: int|
            0 <= i < variants.len() ==> (#[trigger] decode_samples(
                g,
                pgen,
                variants[i].1 as u32,
                sample_rows,
            )) is Ok) ==> genotype_table(g, pgen, variants, sample_rows) is Ok,
    decreases variants.len(),
{
    if variants.len() > 0 {
        let rest = variants.drop_last();
        lemma_genotype_table_shape(g, pgen, rest, sample_rows);
        lemma_decode_samples_shape(g, pgen, variants.last().1 as u32, sample_rows);
        if forall|i: int|
            0 <= i < variants.len() ==> (#[trigger] decode_samples(
                g,
                pgen,
                variants[i].1 as u32,
                sample_rows,
            )) is Ok {
            assert forall|i: int| 0 <= i < rest.len() implies (#[trigger] decode_samples(
                g,
                pgen,
                rest[i].1 as u32,
                sample_rows,
            )) is Ok by {
                assert(rest[i] == variants[i]);
            }
            assert(decode_samples(g, pgen, variants[variants.len() - 1].1 as u32, sample_rows) is Ok);
        }
        match genotype_table(g, pgen, variants, sample_rows) {
            Ok(table) => {
                let before = genotype_table(g, pgen, rest, sample_rows).unwrap();
                assert forall|i: int| 0 <= i < table.len() implies (#[trigger] table[i]).len()
                    == sample_rows.len() && decode_samples(
                    g,
                    pgen,
                    variants[i].1 as u32,
                    sample_rows,
                ) == Ok::<Seq<GenotypeCode>, IoError>(table[i]) by {
                    if i < before.len() {
                        assert(table[i] == before[i]);
                        assert(rest[i] == variants[i]);
                    }
                }
            },
            Err(_) => {},
        }
    }
}

/// Renders the lines of the selected variants of a container image, one
/// after another.
pub fn render_variants(g: &RecordGeometry, pgen: &[u8], variants: &SelectionIndex, sample_rows: &Vec<u32>) -> (body:
    Result<String, IoError>)
    ensures
        match genotype_table(*g, pgen@, variants@, sample_rows@) {
            Ok(table) => body matches Ok(text) && text@ == variant_lines(variants@, table),
            Err(e) => body == Err::<String, IoError>(e),
        },
{
    let mut text = String::new();
    let ghost mut table: Seq<Seq<GenotypeCode>> = Seq::empty();
    let mut i: usize = 0;
    while i < variants.entries.len()
        invariant
            i <= variants.entries.len(),
            table.len() == i,
            genotype_table(*g, pgen@, variants@.take(i as int), sample_rows@) == Ok::<
                Seq<Seq<GenotypeCode>>,
                IoError,
            >(table),
            text@ == variant_lines(variants@, table),
        decreases variants.entries.len() - i,
    {
        assert(variants@.take(i + 1).drop_last() == variants@.take(i as int));
        assert(variants@[i as int] == variants.entries@[i as int]@);
        let entry = &variants.entries[i];
        match decode_variant(g, pgen, entry.row_index, sample_rows) {
            Err(e) => {
                proof {
                    lemma_genotype_table_fails(*g, pgen@, variants@, sample_rows@, i + 1);
                }
                return Err(e);
            },
            Ok(codes) => {
                let line = render_variant_line(entry.raw_line.as_str(), &codes);
                text.append(line.as_str());
                proof {
                    let before = table;
                    table = table.push(codes@);
                    assert(table.drop_last() == before);
                }
            },
        }
        i += 1;
    }
    assert(variants@.take(i as int) == variants@);
    Ok(text)
}

impl Pfile {
    /// Synthesizes the variant-call text for the requested samples and
    /// variants from the lines of the two metadata files and a container
    /// image that starts with the preamble.
    pub fn output_vcf(
        &self,
        sample_ids: Vec<String>,
        variant_ids: Vec<String>,
        pvar_lines: &Vec<String>,
        psam_lines: &Vec<String>,
        pgen: &[u8],
    ) -> (out: Result<String, ConversionError>)
        ensures
            match conversion(
                *self,
                views(pvar_lines@),
                views(psam_lines@),
                pgen@,
                views(sample_ids@),
                views(variant_ids@),
            ) {
                Ok(text) => out matches Ok(s) && s@ == text,
                Err(e) => out == Err::<String, ConversionError>(e),
            },
    {
        let header = match self.read_pvar_header(pvar_lines) {
            Ok(h) => h,
            Err(e) => {
                return Err(ConversionError::Consistency(e));
            },
        };
        let variants = match self.filter_pvar(pvar_lines, &variant_ids) {
            Ok(index) => index,
            Err(e) => {
                return Err(ConversionError::Consistency(e));
            },
        };
        let samples = match self.filter_psam(psam_lines, &sample_ids) {
            Ok(index) => index,
            Err(e) => {
                return Err(ConversionError::Consistency(e));
            },
        };
        let g = self.geometry();
        let sample_rows = samples.row_indices();
        let ids = samples.ids();
        let mut text = render_head(header.0.as_str(), header.1.as_str(), &ids);
        match render_variants(&g, pgen, &variants, &sample_rows) {
            Err(e) => Err(ConversionError::Io(e)),
            Ok(body) => {
                text.append(body.as_str());
                Ok(text)
            },
        }
    }
}

/// Round trip: asking for the ids of all the variants and all the samples
/// of a container that holds every declared record succeeds and visits
/// every cell exactly once: the table has one row per declared variant, in
/// file order, each with one genotype per declared sample, in file order,
/// and the genotype in row `v` and place `s` is that of cell `(v, s)`.
pub proof fn lemma_round_trip(
    p: Pfile,
    pvar_lines: Seq<Seq<char>>,
    psam_lines: Seq<Seq<char>>,
    pgen: Seq<u8>,
    sample_ids: Seq<Seq<char>>,
    variant_ids: Seq<Seq<char>>,
)
    requires
        comment_end(pvar_lines, 0) > 0,
        header_fault(psam_lines) is None,
        short_row(data_rows(pvar_lines), VARIANT_ID_COLUMN as nat, 0) is None,
        short_row(data_rows(psam_lines), SAMPLE_ID_COLUMN as nat, 0) is None,
        data_rows(pvar_lines).len() == p.num_variants,
        data_rows(psam_lines).len() == p.num_samples,
        variant_ids.len() == p.num_variants,
        sample_ids.len() == p.num_samples,
        forall|i: int|
            0 <= i < p.num_variants ==> variant_ids.contains(
                #[trigger] row_ids(data_rows(pvar_lines), VARIANT_ID_COLUMN as nat)[i],
            ),
        forall|i: int|
            0 <= i < p.num_samples ==> sample_ids.contains(
                #[trigger] row_ids(data_rows(psam_lines), SAMPLE_ID_COLUMN as nat)[i],
            ),
        pgen.len() >= HEADER_SIZE + p.num_variants * record_size_bytes(p.num_samples as int),
    ensures
        conversion(p, pvar_lines, psam_lines, pgen, sample_ids, variant_ids) is Ok,
        ({
            let g = RecordGeometry {
                record_size_bytes: record_size_bytes(p.num_samples as int) as u32,
            };
            &&& select(pvar_lines, variant_ids, VARIANT_ID_COLUMN as nat, p.num_variants, false) matches Ok(
                variants,
            )
            &&& select(psam_lines, sample_ids, SAMPLE_ID_COLUMN as nat, p.num_samples, true) matches Ok(
                samples,
            )
            &&& genotype_table(g, pgen, variants, entry_rows(samples)) matches Ok(table)
            &&& table.len() == p.num_variants
            &&& forall|v: int|
                0 <= v < p.num_variants ==> (#[trigger] table[v]).len() == p.num_samples
            &&& forall|v: int, s: int|
                0 <= v < p.num_variants && 0 <= s < p.num_samples ==> g.genotype_in(
                    pgen,
                    v as u32,
                    s as u32,
                ) == Ok::<GenotypeCode, IoError>(#[trigger] table[v][s])
        }),
{
    let g = RecordGeometry { record_size_bytes: record_size_bytes(p.num_samples as int) as u32 };
    lemma_select_all(
        data_rows(pvar_lines),
        variant_ids,
        VARIANT_ID_COLUMN as nat,
        p.num_variants,
    );
    lemma_select_all(data_rows(psam_lines), sample_ids, SAMPLE_ID_COLUMN as nat, p.num_samples);
    let variants = select(
        pvar_lines,
        variant_ids,
        VARIANT_ID_COLUMN as nat,
        p.num_variants,
        false,
    ).unwrap();
    let samples = select(psam_lines, sample_ids, SAMPLE_ID_COLUMN as nat, p.num_samples, true).unwrap();
    let rows = entry_rows(samples);
    assert forall|s: int| 0 <= s < rows.len() implies #[trigger] rows[s] == s as u32 by {
        assert(samples[s].1 == s);
    }
    assert forall|v: int| 0 <= v < variants.len() implies (#[trigger] decode_samples(
        g,
        pgen,
        variants[v].1 as u32,
        rows,
    )) is Ok by {
        assert forall|s: int| 0 <= s < rows.len() implies (#[trigger] g.genotype_in(
            pgen,
            variants[v].1 as u32,
            rows[s],
        )) is Ok by {
            lemma_declared_cells_decode(
                p.num_variants,
                p.num_samples,
                pgen,
                variants[v].1 as u32,
                rows[s],
            );
        }
        lemma_decode_samples_shape(g, pgen, variants[v].1 as u32, rows);
    }
    lemma_genotype_table_shape(g, pgen, variants, rows);
    let table = genotype_table(g, pgen, variants, rows).unwrap();
    assert forall|v: int, s: int|
        0 <= v < p.num_variants && 0 <= s < p.num_samples implies g.genotype_in(
        pgen,
        v as u32,
        s as u32,
    ) == Ok::<GenotypeCode, IoError>(#[trigger] table[v][s]) by {
        assert(table[v].len() == rows.len());
        assert(variants[v].1 == v);
        lemma_decode_samples_shape(g, pgen, v as u32, rows);
        assert(rows[s] == s as u32);
    }
}

/// Decoding a variant from its record, read on its own, gives what
/// decoding it from the whole container gives, for samples that the record
/// has room for.
pub proof fn lemma_record_decoding_agrees(
    g: RecordGeometry,
    pgen: Seq<u8>,
    variant_row: u32,
    sample_rows: Seq<u32>,
)
    requires
        g.byte_offset(variant_row as int, 0) + g.record_size_bytes <= pgen.len(),
        forall|j: int| 0 <= j < sample_rows.len() ==> #[trigger] sample_rows[j] / 4 < g.record_size_bytes,
    ensures
        decode_samples(g, pgen, variant_row, sample_rows) == decode_record_samples(
            pgen.subrange(
                g.byte_offset(variant_row as int, 0),
                g.byte_offset(variant_row as int, 0) + g.record_size_bytes,
            ),
            variant_row,
            sample_rows,
        ),
    decreases sample_rows.len(),
{
    if sample_rows.len() > 0 {
        let rest = sample_rows.drop_last();
        assert forall|j: int| 0 <= j < rest.len() implies #[trigger] rest[j] / 4 < g.record_size_bytes by {
            assert(rest[j] == sample_rows[j]);
        }
        lemma_record_decoding_agrees(g, pgen, variant_row, rest);
        assert(sample_rows[sample_rows.len() - 1] / 4 < g.record_size_bytes);
        lemma_batched_read_agrees(g, pgen, variant_row, sample_rows.last());
    }
}

} // verus!
