use pgen_rs::filter::count_kept;
use pgen_rs::filter::tally;
use pgen_rs::filter::FilterError;
use pgen_rs::pfile::Pfile;

fn lines(text: &[&str]) -> Vec<String> {
    text.iter().map(|l| l.to_string()).collect()
}

fn pfile(variants: u32) -> Pfile {
    Pfile { pfile_prefix: "p".to_string(), num_variants: variants, num_samples: 1 }
}

fn pvar() -> Vec<String> {
    lines(&[
        "##fileformat=VCFv4.2\n",
        "#CHROM\tPOS\tID\tREF\tALT\n",
        "19\t100\trs8100066\tA\tG\n",
        "19\t200\trs2\tC\tT\n",
        "19\t300\trs8100066\tG\tA\n",
        "19\t400\trs81000660\tG\tA\n",
    ])
}

#[test]
fn filter_counts_the_rows_with_the_variant_id() {
    assert_eq!(pfile(4).filter_test(&pvar()), Ok(2));
    assert_eq!(pfile(64).filter_test(&pvar()), Ok(2));
}

#[test]
fn filter_of_a_table_without_matching_rows_counts_nothing() {
    let file = lines(&["#CHROM\tPOS\tID\n", "1\t1\trs1\n", "1\t2\trs2\n"]);
    assert_eq!(pfile(2).filter_test(&file), Ok(0));
    assert_eq!(pfile(2).filter_test(&lines(&["#CHROM\tPOS\tID\n"])), Ok(0));
}

#[test]
fn filter_needs_a_header_line() {
    let file = lines(&["1\t1\trs8100066\n"]);
    assert_eq!(pfile(1).filter_test(&file), Err(FilterError::MissingHeader));
}

#[test]
fn filter_fails_where_no_field_is_named_id() {
    let file = lines(&["#CHROM\tPOS\tNAME\n", "1\t1\trs8100066\n"]);
    assert_eq!(pfile(1).filter_test(&file), Err(FilterError::Evaluation { row: 0 }));
}

#[test]
fn filter_fails_on_a_ragged_table() {
    let file = lines(&["#CHROM\tPOS\tID\n", "1\t1\trs8100066\n", "1\t2\n"]);
    assert_eq!(pfile(2).filter_test(&file), Err(FilterError::Table));
}

#[test]
fn filter_reads_the_header_from_behind_the_comment_marker() {
    let file = lines(&["##x\n", "#ID\tPOS\n", "rs8100066\t1\n"]);
    assert_eq!(pfile(1).filter_test(&file), Ok(1));
}

#[test]
fn kept_records_are_counted_from_named_fields() {
    let rows = vec![
        lines(&["CHROM", "ID"]),
        lines(&["1", "rs8100066"]),
        lines(&["rs8100066", "1"]),
        lines(&["2", "rs8100066"]),
    ];
    assert_eq!(count_kept(&rows), Ok(2));
    assert_eq!(count_kept(&vec![]), Ok(0));
    assert_eq!(count_kept(&vec![lines(&["ID"])]), Ok(0));
}

#[test]
fn later_field_of_the_same_name_wins() {
    let rows = vec![
        lines(&["ID", "POS", "ID"]),
        lines(&["rs8100066", "1", "other"]),
        lines(&["other", "2", "rs8100066"]),
    ];
    assert_eq!(count_kept(&rows), Ok(1));
}

#[test]
fn names_and_values_pair_as_far_as_the_shorter_goes() {
    let rows = vec![lines(&["POS", "ID"]), lines(&["1"]), lines(&["1", "rs8100066", "x"])];
    assert_eq!(count_kept(&rows), Err(FilterError::Evaluation { row: 0 }));
    let rows = vec![lines(&["ID", "POS"]), lines(&["rs8100066"]), lines(&["rs8100066", "1", "x"])];
    assert_eq!(count_kept(&rows), Ok(2));
}

#[test]
fn tally_adds_one_for_a_kept_record() {
    assert_eq!(tally(3, 5, Some(true)), Ok(4));
    assert_eq!(tally(3, 5, Some(false)), Ok(3));
    assert_eq!(tally(3, 5, None), Err(FilterError::Evaluation { row: 5 }));
}
