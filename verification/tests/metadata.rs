use pgen_rs::error::ConsistencyError;
use pgen_rs::metadata::build_index;
use pgen_rs::metadata::comment_block_len;
use pgen_rs::metadata::is_comment_line;
use pgen_rs::pfile::Pfile;

fn lines(text: &[&str]) -> Vec<String> {
    text.iter().map(|l| l.to_string()).collect()
}

fn ids(text: &[&str]) -> Vec<String> {
    text.iter().map(|l| l.to_string()).collect()
}

fn pvar() -> Vec<String> {
    lines(&[
        "##fileformat=VCFv4.2\n",
        "##INFO=<ID=AA,Number=1,Type=String,Description=\"Ancestral Allele\">\n",
        "#CHROM\tPOS\tID\tREF\tALT\n",
        "1\t100\trs1\tA\tG\n",
        "1\t200\trs2\tC\tT\n",
        "1\t300\trs3\tG\tA\n",
    ])
}

fn psam() -> Vec<String> {
    lines(&["#IID\tSEX\n", "s1\t1\n", "s2\t2\n", "s3\t1\n", "s4\t2\n", "s5\t1\n"])
}

fn pfile(variants: u32, samples: u32) -> Pfile {
    Pfile { pfile_prefix: "p".to_string(), num_variants: variants, num_samples: samples }
}

#[test]
fn comment_lines_are_recognised() {
    assert!(is_comment_line("#CHROM\tPOS\n"));
    assert!(is_comment_line("##x"));
    assert!(!is_comment_line("1\t2\n"));
    assert!(!is_comment_line(""));
    assert!(!is_comment_line(" #"));
}

#[test]
fn comment_block_ends_at_the_first_data_line() {
    assert_eq!(comment_block_len(&pvar()), 3);
    assert_eq!(comment_block_len(&psam()), 1);
    assert_eq!(comment_block_len(&lines(&["1\t2\n", "#late\n"])), 0);
    assert_eq!(comment_block_len(&lines(&["#a\n", "#b\n"])), 2);
    assert_eq!(comment_block_len(&lines(&[])), 0);
}

#[test]
fn filter_pvar_keeps_file_order_not_request_order() {
    let index = pfile(3, 5).filter_pvar(&pvar(), &ids(&["rs3", "rs1"])).unwrap();
    assert_eq!(index.entries.len(), 2);
    assert_eq!(index.entries[0].id, "rs1");
    assert_eq!(index.entries[0].row_index, 0);
    assert_eq!(index.entries[0].raw_line, "1\t100\trs1\tA\tG\n");
    assert_eq!(index.entries[1].id, "rs3");
    assert_eq!(index.entries[1].row_index, 2);
    assert_eq!(index.entries[1].raw_line, "1\t300\trs3\tG\tA\n");
    assert_eq!(index.ids(), vec!["rs1".to_string(), "rs3".to_string()]);
    assert_eq!(index.row_indices(), vec![0, 2]);
}

#[test]
fn filter_psam_keeps_file_order_not_request_order() {
    let index = pfile(3, 5).filter_psam(&psam(), &ids(&["s5", "s2", "s4"])).unwrap();
    assert_eq!(index.ids(), vec!["s2".to_string(), "s4".to_string(), "s5".to_string()]);
    assert_eq!(index.row_indices(), vec![1, 3, 4]);
    assert_eq!(index.entries[2].raw_line, "s5\t1\n");
}

#[test]
fn requesting_every_id_retains_every_row_once() {
    let all = ids(&["rs1", "rs2", "rs3"]);
    let index = pfile(3, 5).filter_pvar(&pvar(), &all).unwrap();
    assert_eq!(index.row_indices(), vec![0, 1, 2]);
    assert_eq!(index.ids(), all);
}

#[test]
fn requesting_nothing_retains_nothing() {
    let index = pfile(3, 5).filter_pvar(&pvar(), &ids(&[])).unwrap();
    assert_eq!(index.entries.len(), 0);
}

#[test]
fn more_rows_than_declared_is_a_row_count_error() {
    let got = pfile(2, 5).filter_pvar(&pvar(), &ids(&["rs1"]));
    assert!(matches!(got, Err(ConsistencyError::RowCount { expected: 2, observed: 3 })));
}

#[test]
fn fewer_rows_than_declared_is_a_row_count_error() {
    let got = pfile(3, 6).filter_psam(&psam(), &ids(&["s1"]));
    assert!(matches!(got, Err(ConsistencyError::RowCount { expected: 6, observed: 5 })));
}

#[test]
fn absent_id_is_a_selection_error() {
    let got = pfile(3, 5).filter_pvar(&pvar(), &ids(&["rs1", "rs9"]));
    assert!(matches!(got, Err(ConsistencyError::Selection { expected: 2, observed: 1 })));
}

#[test]
fn selection_is_checked_before_the_row_count() {
    let got = pfile(7, 5).filter_pvar(&pvar(), &ids(&["rs9"]));
    assert!(matches!(got, Err(ConsistencyError::Selection { expected: 1, observed: 0 })));
}

#[test]
fn id_that_occurs_in_two_rows_is_a_selection_error() {
    let mut file = pvar();
    file.push("1\t400\trs2\tT\tC\n".to_string());
    let got = pfile(4, 5).filter_pvar(&file, &ids(&["rs2"]));
    assert!(matches!(got, Err(ConsistencyError::Selection { expected: 1, observed: 2 })));
}

#[test]
fn row_without_id_column_is_reported_with_its_index() {
    let mut file = pvar();
    file.insert(4, "1\t150\n".to_string());
    let got = pfile(4, 5).filter_pvar(&file, &ids(&["rs1"]));
    assert!(matches!(got, Err(ConsistencyError::MissingColumn { row: 1 })));
}

#[test]
fn sample_header_must_open_with_the_sentinel() {
    let mut file = psam();
    file[0] = "#FID\tIID\n".to_string();
    let got = pfile(3, 5).filter_psam(&file, &ids(&["s1"]));
    assert!(matches!(got, Err(ConsistencyError::SampleHeader)));
}

#[test]
fn sample_file_without_header_is_rejected() {
    let file = lines(&["s1\t1\n", "s2\t2\n"]);
    let got = pfile(3, 2).filter_psam(&file, &ids(&["s1"]));
    assert!(matches!(got, Err(ConsistencyError::SampleHeader)));
    let got = pfile(3, 0).filter_psam(&lines(&[]), &ids(&[]));
    assert!(matches!(got, Err(ConsistencyError::SampleHeader)));
}

#[test]
fn sample_header_without_comment_marker_fails_the_sentinel() {
    let file = lines(&["IID\tSEX\n", "s0\t1\n"]);
    let got = pfile(3, 1).filter_psam(&file, &ids(&["s0"]));
    assert!(matches!(got, Err(ConsistencyError::SampleHeader)));
}

#[test]
fn sample_header_is_checked_before_any_row() {
    let file = lines(&["#FID\tIID\n", "\n", "s0\t1\n"]);
    let got = pfile(3, 9).filter_psam(&file, &ids(&["s0", "nobody"]));
    assert!(matches!(got, Err(ConsistencyError::SampleHeader)));
}

#[test]
fn sample_header_may_follow_other_comment_lines() {
    let mut file = psam();
    file.insert(0, "##note\n".to_string());
    let index = pfile(3, 5).filter_psam(&file, &ids(&["s3"])).unwrap();
    assert_eq!(index.row_indices(), vec![2]);
}

#[test]
fn id_in_the_last_column_excludes_the_line_terminator() {
    let file = lines(&["#IID\n", "s1\n", "s2\r\n", "s3"]);
    let index = pfile(3, 3).filter_psam(&file, &ids(&["s3", "s2", "s1"])).unwrap();
    assert_eq!(index.ids(), vec!["s1".to_string(), "s2".to_string(), "s3".to_string()]);
    assert_eq!(index.entries[1].raw_line, "s2\r\n");
}

#[test]
fn build_index_takes_the_id_from_the_given_column() {
    let file = lines(&["#A\tB\n", "x\ty\n", "y\tx\n"]);
    let index = build_index(&file, &ids(&["x"]), 1, 2, false).unwrap();
    assert_eq!(index.row_indices(), vec![1]);
    let index = build_index(&file, &ids(&["x"]), 0, 2, false).unwrap();
    assert_eq!(index.row_indices(), vec![0]);
}

#[test]
fn pvar_header_is_split_from_the_column_line() {
    let (comments, names) = pfile(3, 5).read_pvar_header(&pvar()).unwrap();
    assert_eq!(
        comments,
        "##fileformat=VCFv4.2\n##INFO=<ID=AA,Number=1,Type=String,Description=\"Ancestral Allele\">\n"
    );
    assert_eq!(names, "#CHROM\tPOS\tID\tREF\tALT\n");
}

#[test]
fn pvar_header_of_a_single_comment_line_has_no_comments() {
    let (comments, names) = pfile(3, 5).read_pvar_header(&psam()).unwrap();
    assert_eq!(comments, "");
    assert_eq!(names, "#IID\tSEX\n");
}

#[test]
fn pvar_without_comment_block_has_no_header() {
    let got = pfile(3, 5).read_pvar_header(&lines(&["1\t100\trs1\n"]));
    assert!(matches!(got, Err(ConsistencyError::MissingHeader)));
}

#[test]
fn header_start_is_just_after_the_comment_marker() {
    // 21 + 67 bytes of comments, then the marker of the column line.
    assert_eq!(Pfile::find_metadata_file_header_start(&pvar()), Some(21 + 67 + 1));
    assert_eq!(Pfile::find_metadata_file_header_start(&psam()), Some(1));
    assert_eq!(Pfile::find_metadata_file_header_start(&lines(&["1\t2\n"])), None);
}

#[test]
fn header_start_counts_bytes_not_characters() {
    let file = lines(&["##é\n", "#IID\n", "s1\n"]);
    assert_eq!(Pfile::find_metadata_file_header_start(&file), Some(5 + 1));
}
