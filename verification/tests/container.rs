use pgen_rs::container::genotype_of_record;
use pgen_rs::container::ContainerDescriptor;
use pgen_rs::container::RecordGeometry;
use pgen_rs::container::StorageMode;
use pgen_rs::container::HEADER_SIZE;
use pgen_rs::error::FormatError;
use pgen_rs::error::IoError;
use pgen_rs::genotype::GenotypeCode;
use pgen_rs::pfile::Pfile;

fn preamble(variants: u32, samples: u32) -> Vec<u8> {
    let mut bytes = vec![0x6C, 0x1B, 0x02];
    bytes.extend_from_slice(&variants.to_le_bytes());
    bytes.extend_from_slice(&samples.to_le_bytes());
    bytes.push(0x40);
    bytes
}

fn image() -> Vec<u8> {
    // 3 variants, 5 samples: two bytes per record.
    let mut bytes = preamble(3, 5);
    bytes.extend_from_slice(&[0b1110_0100, 0b0000_0001]);
    bytes.extend_from_slice(&[0b0000_0000, 0b0000_0010]);
    bytes.extend_from_slice(&[0b1111_1111, 0b0000_0011]);
    bytes
}

#[test]
fn parse_reads_the_declared_counts() {
    let d = ContainerDescriptor::parse(&preamble(3, 4)).unwrap();
    assert_eq!(d.magic, [0x6C, 0x1B]);
    assert_eq!(d.storage_mode, StorageMode::FixedWidth2Bit);
    assert_eq!(d.variant_count, 3);
    assert_eq!(d.sample_count, 4);
    assert_eq!(d.flags, 0x40);
}

#[test]
fn parse_reads_counts_little_endian() {
    let bytes = [0x6C, 0x1B, 0x02, 0x01, 0x02, 0x03, 0x04, 0xFF, 0x00, 0x00, 0x80, 0x40];
    let d = ContainerDescriptor::parse(&bytes).unwrap();
    assert_eq!(d.variant_count, 0x0403_0201);
    assert_eq!(d.sample_count, 0x8000_00FF);
}

#[test]
fn parse_ignores_bytes_after_the_preamble() {
    let d = ContainerDescriptor::parse(&image()).unwrap();
    assert_eq!(d.variant_count, 3);
    assert_eq!(d.sample_count, 5);
}

#[test]
fn parse_rejects_bad_magic() {
    let mut bytes = preamble(1, 1);
    bytes[1] = 0x1C;
    assert_eq!(ContainerDescriptor::parse(&bytes), Err(FormatError::BadMagic));
    bytes[1] = 0x1B;
    bytes[0] = 0x00;
    assert_eq!(ContainerDescriptor::parse(&bytes), Err(FormatError::BadMagic));
}

#[test]
fn parse_rejects_other_storage_modes() {
    let mut bytes = preamble(1, 1);
    bytes[2] = 0x10;
    assert_eq!(ContainerDescriptor::parse(&bytes), Err(FormatError::UnsupportedStorageMode));
}

#[test]
fn parse_rejects_other_flags() {
    let mut bytes = preamble(1, 1);
    bytes[11] = 0x00;
    assert_eq!(ContainerDescriptor::parse(&bytes), Err(FormatError::UnsupportedFlags));
}

#[test]
fn parse_reports_the_field_at_which_the_preamble_ends() {
    assert_eq!(ContainerDescriptor::parse(&[]), Err(FormatError::Truncated));
    assert_eq!(ContainerDescriptor::parse(&[0x6C]), Err(FormatError::Truncated));
    assert_eq!(ContainerDescriptor::parse(&[0x00, 0x00]), Err(FormatError::BadMagic));
    assert_eq!(ContainerDescriptor::parse(&[0x6C, 0x1B]), Err(FormatError::Truncated));
    assert_eq!(
        ContainerDescriptor::parse(&[0x6C, 0x1B, 0x03]),
        Err(FormatError::UnsupportedStorageMode)
    );
    assert_eq!(ContainerDescriptor::parse(&[0x6C, 0x1B, 0x02]), Err(FormatError::Truncated));
    let full = preamble(7, 9);
    assert_eq!(ContainerDescriptor::parse(&full[..11]), Err(FormatError::Truncated));
}

#[test]
fn from_prefix_keeps_prefix_and_counts() {
    let p = Pfile::from_prefix("data/basic".to_string(), &preamble(10, 20)).unwrap();
    assert_eq!(p.pfile_prefix, "data/basic");
    assert_eq!(p.num_variants, 10);
    assert_eq!(p.num_samples, 20);
}

#[test]
fn from_prefix_reports_format_errors() {
    let mut bytes = preamble(10, 20);
    bytes[0] = 0x6D;
    assert!(matches!(
        Pfile::from_prefix("x".to_string(), &bytes),
        Err(FormatError::BadMagic)
    ));
    assert!(matches!(Pfile::from_prefix("x".to_string(), &[]), Err(FormatError::Truncated)));
}

#[test]
fn paths_append_the_three_extensions() {
    let p = Pfile { pfile_prefix: "dir/cohort".to_string(), num_variants: 0, num_samples: 0 };
    assert_eq!(p.pgen_path(), "dir/cohort.pgen");
    assert_eq!(p.psam_path(), "dir/cohort.psam");
    assert_eq!(p.pvar_path(), "dir/cohort.pvar");
}

#[test]
fn record_size_is_two_bits_per_sample_rounded_up() {
    let sizes = [(0u32, 0u32), (1, 1), (3, 1), (4, 1), (5, 2), (8, 2), (9, 3), (2504, 626)];
    for (samples, expected) in sizes {
        let p = Pfile { pfile_prefix: String::new(), num_variants: 1, num_samples: samples };
        assert_eq!(p.variant_record_size(), expected);
        assert_eq!(p.geometry().record_size_bytes, expected);
        let d = ContainerDescriptor::parse(&preamble(1, samples)).unwrap();
        assert_eq!(d.geometry().record_size_bytes, expected);
    }
}

#[test]
fn record_size_of_the_largest_sample_count_does_not_overflow() {
    let p = Pfile { pfile_prefix: String::new(), num_variants: 1, num_samples: u32::MAX };
    assert_eq!(p.variant_record_size(), 1_073_741_824);
}

#[test]
fn bit_table_is_exhaustive() {
    assert_eq!(GenotypeCode::from_bits(0b00), GenotypeCode::HomozygousRef);
    assert_eq!(GenotypeCode::from_bits(0b01), GenotypeCode::Heterozygous);
    assert_eq!(GenotypeCode::from_bits(0b10), GenotypeCode::HomozygousAlt);
    assert_eq!(GenotypeCode::from_bits(0b11), GenotypeCode::Missing);
}

#[test]
fn packed_byte_is_read_least_significant_pair_first() {
    let byte = 0b1110_0100;
    assert_eq!(GenotypeCode::from_packed(byte, 0), GenotypeCode::HomozygousRef);
    assert_eq!(GenotypeCode::from_packed(byte, 1), GenotypeCode::Heterozygous);
    assert_eq!(GenotypeCode::from_packed(byte, 2), GenotypeCode::HomozygousAlt);
    assert_eq!(GenotypeCode::from_packed(byte, 3), GenotypeCode::Missing);
}

#[test]
fn one_byte_record_of_four_samples_decodes() {
    let p = Pfile { pfile_prefix: String::new(), num_variants: 1, num_samples: 4 };
    assert_eq!(p.variant_record_size(), 1);
    let mut bytes = preamble(1, 4);
    bytes.push(0b1110_0100);
    let g = p.geometry();
    assert_eq!(g.genotype_at(&bytes, 0, 0), Ok(GenotypeCode::HomozygousRef));
    assert_eq!(g.genotype_at(&bytes, 0, 1), Ok(GenotypeCode::Heterozygous));
    assert_eq!(g.genotype_at(&bytes, 0, 2), Ok(GenotypeCode::HomozygousAlt));
    assert_eq!(g.genotype_at(&bytes, 0, 3), Ok(GenotypeCode::Missing));
}

#[test]
fn codes_render_as_vcf_genotypes() {
    assert_eq!(GenotypeCode::HomozygousRef.as_vcf(), "0/0");
    assert_eq!(GenotypeCode::Heterozygous.as_vcf(), "0/1");
    assert_eq!(GenotypeCode::HomozygousAlt.as_vcf(), "1/1");
    assert_eq!(GenotypeCode::Missing.as_vcf(), "./.");
}

#[test]
fn record_offset_counts_from_the_end_of_the_preamble() {
    assert_eq!(HEADER_SIZE, 12);
    let g = RecordGeometry { record_size_bytes: 2 };
    assert_eq!(g.record_offset(0), 12);
    assert_eq!(g.record_offset(1), 14);
    assert_eq!(g.record_offset(7), 26);
    let wide = RecordGeometry { record_size_bytes: u32::MAX };
    assert_eq!(wide.record_offset(u32::MAX), 12 + (u32::MAX as u64) * (u32::MAX as u64));
}

#[test]
fn genotype_at_addresses_variant_and_sample() {
    let g = RecordGeometry { record_size_bytes: 2 };
    let pgen = image();
    assert_eq!(g.genotype_at(&pgen, 0, 4), Ok(GenotypeCode::Heterozygous));
    assert_eq!(g.genotype_at(&pgen, 1, 0), Ok(GenotypeCode::HomozygousRef));
    assert_eq!(g.genotype_at(&pgen, 1, 4), Ok(GenotypeCode::HomozygousAlt));
    assert_eq!(g.genotype_at(&pgen, 2, 2), Ok(GenotypeCode::Missing));
    assert_eq!(g.genotype_at(&pgen, 2, 4), Ok(GenotypeCode::Missing));
}

#[test]
fn genotype_at_fails_past_the_end() {
    let g = RecordGeometry { record_size_bytes: 2 };
    let pgen = image();
    assert_eq!(
        g.genotype_at(&pgen, 3, 0),
        Err(IoError::UnexpectedEof { variant_row: 3, sample_row: 0 })
    );
    assert_eq!(
        g.genotype_at(&pgen, 2, 8),
        Err(IoError::UnexpectedEof { variant_row: 2, sample_row: 8 })
    );
    assert_eq!(
        g.genotype_at(&pgen, u32::MAX, u32::MAX),
        Err(IoError::UnexpectedEof { variant_row: u32::MAX, sample_row: u32::MAX })
    );
}

#[test]
fn decoding_twice_gives_the_same_code() {
    let g = RecordGeometry { record_size_bytes: 2 };
    let pgen = image();
    for v in 0..4u32 {
        for s in 0..9u32 {
            assert_eq!(g.genotype_at(&pgen, v, s), g.genotype_at(&pgen, v, s));
        }
    }
}

#[test]
fn record_read_agrees_with_single_reads() {
    let g = RecordGeometry { record_size_bytes: 2 };
    let pgen = image();
    for v in 0..3u32 {
        let start = g.record_offset(v) as usize;
        let record = &pgen[start..start + 2];
        for s in 0..8u32 {
            assert_eq!(genotype_of_record(record, v, s), g.genotype_at(&pgen, v, s));
        }
    }
}

#[test]
fn record_read_fails_on_a_short_record() {
    assert_eq!(
        genotype_of_record(&[0xFF], 5, 4),
        Err(IoError::UnexpectedEof { variant_row: 5, sample_row: 4 })
    );
    assert_eq!(genotype_of_record(&[0xFF], 5, 3), Ok(GenotypeCode::Missing));
}
