use pgen_rs::container::RecordGeometry;
use pgen_rs::error::ConsistencyError;
use pgen_rs::error::ConversionError;
use pgen_rs::error::IoError;
use pgen_rs::genotype::GenotypeCode;
use pgen_rs::pfile::Pfile;
use pgen_rs::vcf::compose_head;
use pgen_rs::vcf::decode_record;
use pgen_rs::vcf::decode_variant;
use pgen_rs::vcf::render_head;
use pgen_rs::vcf::render_variant_line;
use pgen_rs::vcf::render_variants;
use pgen_rs::vcf::tag_variant_line;

fn lines(text: &[&str]) -> Vec<String> {
    text.iter().map(|l| l.to_string()).collect()
}

fn pvar() -> Vec<String> {
    lines(&[
        "##fileformat=VCFv4.2\n",
        "##INFO=<ID=AA,Number=1,Type=String,Description=\"Ancestral Allele\">\n",
        "#CHROM\tPOS\tID\tREF\tALT\n",
        "1\t100\trs1\tA\tG\n",
        "1\t200\trs2\tC\tT\n",
        "1\t300\trs3\tG\tA\n",
    ])
}

fn psam() -> Vec<String> {
    lines(&["#IID\tSEX\n", "s1\t1\n", "s2\t2\n", "s3\t1\n", "s4\t2\n", "s5\t1\n"])
}

fn image() -> Vec<u8> {
    let mut bytes = vec![0x6C, 0x1B, 0x02, 3, 0, 0, 0, 5, 0, 0, 0, 0x40];
    bytes.extend_from_slice(&[0b1110_0100, 0b0000_0001]);
    bytes.extend_from_slice(&[0b0000_0000, 0b0000_0010]);
    bytes.extend_from_slice(&[0b1111_1111, 0b0000_0011]);
    bytes
}

fn pfile() -> Pfile {
    Pfile::from_prefix("cohort".to_string(), &image()).unwrap()
}

#[test]
fn output_for_a_subset_is_in_file_order() {
    let text = pfile()
        .output_vcf(lines(&["s5", "s1"]), lines(&["rs3", "rs1"]), &pvar(), &psam(), &image())
        .unwrap();
    let expected = "##fileformat=VCFv4.2\n\
##source=pgen-rs\n\
##fileformat=VCFv4.2\n\
##INFO=<ID=AA,Number=1,Type=String,Description=\"Ancestral Allele\">\n\
#CHROM\tPOS\tID\tREF\tALT\tFORMAT\ts1\ts5\n\
1\t100\trs1\tA\tG\tGT\t0/0\t0/1\n\
1\t300\trs3\tG\tA\tGT\t./.\t./.\n";
    assert_eq!(text, expected);
}

#[test]
fn output_for_everything_has_a_line_per_variant_and_a_field_per_sample() {
    let text = pfile()
        .output_vcf(
            lines(&["s1", "s2", "s3", "s4", "s5"]),
            lines(&["rs1", "rs2", "rs3"]),
            &pvar(),
            &psam(),
            &image(),
        )
        .unwrap();
    let data: Vec<&str> = text.lines().filter(|l| !l.starts_with('#')).collect();
    assert_eq!(data.len(), 3);
    for line in &data {
        let fields: Vec<&str> = line.split('\t').collect();
        assert_eq!(fields.len(), 5 + 1 + 5);
        assert_eq!(fields[5], "GT");
    }
    assert_eq!(data[0], "1\t100\trs1\tA\tG\tGT\t0/0\t0/1\t1/1\t./.\t0/1");
    assert_eq!(data[1], "1\t200\trs2\tC\tT\tGT\t0/0\t0/0\t0/0\t0/0\t1/1");
    assert_eq!(data[2], "1\t300\trs3\tG\tA\tGT\t./.\t./.\t./.\t./.\t./.");
    let header: Vec<&str> = text.lines().filter(|l| l.starts_with("#CHROM")).collect();
    assert_eq!(header, vec!["#CHROM\tPOS\tID\tREF\tALT\tFORMAT\ts1\ts2\ts3\ts4\ts5"]);
}

#[test]
fn output_without_samples_has_an_empty_sample_list() {
    let text = pfile().output_vcf(lines(&[]), lines(&["rs2"]), &pvar(), &psam(), &image()).unwrap();
    assert!(text.ends_with("#CHROM\tPOS\tID\tREF\tALT\tFORMAT\t\n1\t200\trs2\tC\tT\tGT\n"));
}

#[test]
fn output_fails_on_a_missing_variant_header() {
    let file = lines(&["1\t100\trs1\tA\tG\n"]);
    let got = pfile().output_vcf(lines(&[]), lines(&[]), &file, &psam(), &image());
    assert_eq!(got, Err(ConversionError::Consistency(ConsistencyError::MissingHeader)));
}

#[test]
fn output_fails_when_the_variant_file_disagrees_with_the_container() {
    let mut file = pvar();
    file.pop();
    let got = pfile().output_vcf(lines(&["s1"]), lines(&["rs1"]), &file, &psam(), &image());
    assert_eq!(
        got,
        Err(ConversionError::Consistency(ConsistencyError::RowCount { expected: 3, observed: 2 }))
    );
}

#[test]
fn output_fails_when_the_sample_file_disagrees_with_the_container() {
    let mut file = psam();
    file.push("s6\t1\n".to_string());
    let got = pfile().output_vcf(lines(&["s1"]), lines(&["rs1"]), &pvar(), &file, &image());
    assert_eq!(
        got,
        Err(ConversionError::Consistency(ConsistencyError::RowCount { expected: 5, observed: 6 }))
    );
}

#[test]
fn output_reports_the_variant_index_before_the_sample_index() {
    let got = pfile().output_vcf(lines(&["nobody"]), lines(&["nothing"]), &pvar(), &psam(), &image());
    assert_eq!(
        got,
        Err(ConversionError::Consistency(ConsistencyError::Selection { expected: 1, observed: 0 }))
    );
    let mut file = psam();
    file[0] = "IID\n".to_string();
    let got = pfile().output_vcf(lines(&["s1"]), lines(&["rs1"]), &pvar(), &file, &image());
    assert_eq!(got, Err(ConversionError::Consistency(ConsistencyError::SampleHeader)));
}

#[test]
fn output_fails_on_a_container_that_ends_early() {
    let mut pgen = image();
    pgen.truncate(12 + 2 + 1);
    let got = pfile().output_vcf(lines(&["s1", "s5"]), lines(&["rs1", "rs2"]), &pvar(), &psam(), &pgen);
    assert_eq!(
        got,
        Err(ConversionError::Io(IoError::UnexpectedEof { variant_row: 1, sample_row: 4 }))
    );
}

#[test]
fn decode_variant_follows_the_order_of_the_sample_rows() {
    let g = RecordGeometry { record_size_bytes: 2 };
    let codes = decode_variant(&g, &image(), 0, &vec![4, 0, 3, 3]).unwrap();
    assert_eq!(
        codes,
        vec![
            GenotypeCode::Heterozygous,
            GenotypeCode::HomozygousRef,
            GenotypeCode::Missing,
            GenotypeCode::Missing
        ]
    );
    assert_eq!(decode_variant(&g, &image(), 1, &vec![]).unwrap(), vec![]);
}

#[test]
fn decode_variant_reports_the_first_sample_that_fails() {
    let g = RecordGeometry { record_size_bytes: 2 };
    let got = decode_variant(&g, &image(), 2, &vec![1, 9, 12]);
    assert_eq!(got, Err(IoError::UnexpectedEof { variant_row: 2, sample_row: 9 }));
}

#[test]
fn decode_record_agrees_with_decode_variant() {
    let g = RecordGeometry { record_size_bytes: 2 };
    let pgen = image();
    let rows = vec![0, 1, 2, 3, 4];
    for v in 0..3u32 {
        let start = g.record_offset(v) as usize;
        assert_eq!(
            decode_record(&pgen[start..start + 2], v, &rows),
            decode_variant(&g, &pgen, v, &rows)
        );
    }
    assert_eq!(
        decode_record(&[0x00], 7, &rows),
        Err(IoError::UnexpectedEof { variant_row: 7, sample_row: 4 })
    );
}

#[test]
fn variant_line_trims_the_metadata_line() {
    let codes = vec![GenotypeCode::HomozygousAlt, GenotypeCode::Missing];
    assert_eq!(render_variant_line("  1\t5\trs\tA\tC \r\n", &codes), "1\t5\trs\tA\tC\tGT\t1/1\t./.\n");
    assert_eq!(render_variant_line("\u{a0}x\u{2003}\n", &vec![]), "x\tGT\n");
    assert_eq!(render_variant_line(" \t\n", &vec![GenotypeCode::Heterozygous]), "\tGT\t0/1\n");
    assert_eq!(render_variant_line("", &vec![]), "\tGT\n");
}

#[test]
fn head_joins_sample_ids_with_tabs() {
    let head = render_head("##a\n##b\n", "#CHROM\tID\n", &lines(&["x", "y", "z"]));
    assert_eq!(
        head,
        "##fileformat=VCFv4.2\n##source=pgen-rs\n##a\n##b\n#CHROM\tID\tFORMAT\tx\ty\tz\n"
    );
    let head = render_head("", " #C ", &lines(&["only"]));
    assert_eq!(head, "##fileformat=VCFv4.2\n##source=pgen-rs\n#C\tFORMAT\tonly\n");
}

#[test]
fn variants_render_one_line_each() {
    let p = pfile();
    let variants = p.filter_pvar(&pvar(), &lines(&["rs2", "rs1"])).unwrap();
    let body = render_variants(&p.geometry(), &image(), &variants, &vec![4]).unwrap();
    assert_eq!(body, "1\t100\trs1\tA\tG\tGT\t0/1\n1\t200\trs2\tC\tT\tGT\t1/1\n");
}

#[test]
fn trimmed_line_is_tagged_as_it_stands() {
    let codes = vec![GenotypeCode::HomozygousRef, GenotypeCode::Heterozygous];
    assert_eq!(tag_variant_line("1\t5\trs\tA\tC", &codes), "1\t5\trs\tA\tC\tGT\t0/0\t0/1\n");
    assert_eq!(tag_variant_line(" x ", &vec![]), " x \tGT\n");
    assert_eq!(tag_variant_line("", &vec![GenotypeCode::Missing]), "\tGT\t./.\n");
}

#[test]
fn head_is_composed_from_trimmed_column_names() {
    let head = compose_head("##a\n", "#CHROM\tID", &lines(&["x", "y"]));
    assert_eq!(head, "##fileformat=VCFv4.2\n##source=pgen-rs\n##a\n#CHROM\tID\tFORMAT\tx\ty\n");
    let head = compose_head("", " #C ", &lines(&[]));
    assert_eq!(head, "##fileformat=VCFv4.2\n##source=pgen-rs\n #C \tFORMAT\t\n");
}
