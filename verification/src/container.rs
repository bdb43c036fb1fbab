//! The container descriptor, its record geometry and the random-access
//! genotype decoder.

use vstd::prelude::*;
use crate::error::FormatError;
use crate::error::IoError;
use crate::genotype::GenotypeCode;
use crate::genotype::pair_bits;

verus! {

/// Byte length of the validated preamble; the first record starts here.
pub const HEADER_SIZE: u64 = 12;

/// The two magic bytes that open a container.
pub const MAGIC_0: u8 = 0x6C;

pub const MAGIC_1: u8 = 0x1B;

/// The storage mode byte of the fixed-width two-bit encoding.
pub const MODE_FIXED_WIDTH: u8 = 0x02;

/// The single supported flags byte.
pub const SUPPORTED_FLAGS: u8 = 0x40;

/// How genotype records are laid out in the container body.
#[derive(Clone, Copy, Debug, PartialEq, Eq, Structural)]
pub enum StorageMode {
    /// Every record has the same width, two bits per sample.
    FixedWidth2Bit,
}

/// What a validated preamble declares.
#[derive(Clone, Copy, Debug, PartialEq, Eq)]
pub struct ContainerDescriptor {
    pub magic: [u8; 2],
    pub storage_mode: StorageMode,
    pub variant_count: u32,
    pub sample_count: u32,
    pub flags: u8,
}

/// The fixed byte span of one variant record.
#[derive(Clone, Copy, Debug, PartialEq, Eq, Structural)]
pub struct RecordGeometry {
    pub record_size_bytes: u32,
}

/// The value of four bytes read as a little-endian unsigned integer.
pub open spec fn le_u32(b0: u8, b1: u8, b2: u8, b3: u8) -> int {
    b0 as int + 256 * (b1 as int) + 65536 * (b2 as int) + 16777216 * (b3 as int)
}

/// Bytes per variant record for `samples` samples at two bits each,
/// rounded up to whole bytes.
pub open spec fn record_size_bytes(samples: int) -> int {
    (samples * 2 + 7) / 8
}

/// What validating a preamble yields: the declared variant and sample
/// counts, or the first field that fails. Fields are read in order, so a
/// preamble that ends early fails at the field it ends in.
pub open spec fn validate_preamble(bytes: Seq<u8>) -> Result<(int, int), FormatError> {
    if bytes.len() < 2 {
        Err(FormatError::Truncated)
    } else if bytes[0] != MAGIC_0 || bytes[1] != MAGIC_1 {
        Err(FormatError::BadMagic)
    } else if bytes.len() < 3 {
        Err(FormatError::Truncated)
    } else if bytes[2] != MODE_FIXED_WIDTH {
        Err(FormatError::UnsupportedStorageMode)
    } else if bytes.len() < HEADER_SIZE {
        Err(FormatError::Truncated)
    } else if bytes[11] != SUPPORTED_FLAGS {
        Err(FormatError::UnsupportedFlags)
    } else {
        Ok(
            (
                le_u32(bytes[3], bytes[4], bytes[5], bytes[6]),
                le_u32(bytes[7], bytes[8], bytes[9], bytes[10]),
            ),
        )
    }
}

fn read_le_u32(bytes: &[u8], at: usize) -> (value: u32)
    requires
        at + 4 <= bytes@.len(),
    ensures
        value == le_u32(bytes@[at as int], bytes@[at + 1], bytes@[at + 2], bytes@[at + 3]),
{
    let b0: u32 = bytes[at] as u32;
    let b1: u32 = bytes[at + 1] as u32;
    let b2: u32 = bytes[at + 2] as u32;
    let b3: u32 = bytes[at + 3] as u32;
    b0 + 256 * b1 + 65536 * b2 + 16777216 * b3
}

impl ContainerDescriptor {
    /// A descriptor of a supported container: the magic number and the
    /// flags are the supported ones.
    pub open spec fn wf(self) -> bool {
        &&& self.magic@ == seq![MAGIC_0, MAGIC_1]
        &&& self.flags == SUPPORTED_FLAGS
    }

    /// Validates a preamble. `preamble` holds the first bytes of the
    /// container, as many of the first twelve as it has; bytes after the
    /// twelfth are not looked at.
    pub fn parse(preamble: &[u8]) -> (parsed: Result<ContainerDescriptor, FormatError>)
        ensures
            match validate_preamble(preamble@) {
                Ok((variants, samples)) => parsed matches Ok(d) && d.wf() && d.variant_count
                    == variants && d.sample_count == samples,
                Err(e) => parsed == Err::<ContainerDescriptor, FormatError>(e),
            },
    {
        let n = preamble.len();
        if n < 2 {
            return Err(FormatError::Truncated);
        }
        if preamble[0] != MAGIC_0 || preamble[1] != MAGIC_1 {
            return Err(FormatError::BadMagic);
        }
        if n < 3 {
            return Err(FormatError::Truncated);
        }
        if preamble[2] != MODE_FIXED_WIDTH {
            return Err(FormatError::UnsupportedStorageMode);
        }
        if n < 12 {
            return Err(FormatError::Truncated);
        }
        let variant_count = read_le_u32(preamble, 3);
        let sample_count = read_le_u32(preamble, 7);
        if preamble[11] != SUPPORTED_FLAGS {
            return Err(FormatError::UnsupportedFlags);
        }
        let magic: [u8; 2] = [MAGIC_0, MAGIC_1];
        assert(magic@ =~= seq![MAGIC_0, MAGIC_1]);
        Ok(
            ContainerDescriptor {
                magic,
                storage_mode: StorageMode::FixedWidth2Bit,
                variant_count,
                sample_count,
                flags: SUPPORTED_FLAGS,
            },
        )
    }

    /// The record geometry that the sample count fixes for the whole
    /// container: two bits per sample, rounded up to whole bytes.
    pub fn geometry(&self) -> (g: RecordGeometry)
        ensures
            g.record_size_bytes == record_size_bytes(self.sample_count as int),
            8 * (g.record_size_bytes - 1) < 2 * self.sample_count <= 8 * g.record_size_bytes,
    {
        let bits: u64 = self.sample_count as u64 * 2;
        RecordGeometry { record_size_bytes: ((bits + 7) / 8) as u32 }
    }
}

impl RecordGeometry {
    /// Position of the byte that holds a genotype, counted from the start
    /// of the container.
    pub open spec fn byte_offset(self, variant_row: int, sample_row: int) -> int {
        HEADER_SIZE + variant_row * self.record_size_bytes + sample_row / 4
    }

    /// The genotype of one sample at one variant of a container image.
    pub open spec fn genotype_in(self, pgen: Seq<u8>, variant_row: u32, sample_row: u32) -> Result<
        GenotypeCode,
        IoError,
    > {
        let at = self.byte_offset(variant_row as int, sample_row as int);
        if at < pgen.len() {
            Ok(GenotypeCode::of_bits(pair_bits(pgen[at], (sample_row % 4) as u8)))
        } else {
            Err(IoError::UnexpectedEof { variant_row, sample_row })
        }
    }

    /// The genotype of one sample in the record of variant `variant_row`,
    /// read on its own.
    pub open spec fn genotype_in_record(record: Seq<u8>, variant_row: u32, sample_row: u32) -> Result<
        GenotypeCode,
        IoError,
    > {
        let at = sample_row as int / 4;
        if at < record.len() {
            Ok(GenotypeCode::of_bits(pair_bits(record[at], (sample_row % 4) as u8)))
        } else {
            Err(IoError::UnexpectedEof { variant_row, sample_row })
        }
    }

    /// Position at which the record of a variant row starts.
    pub fn record_offset(&self, variant_row: u32) -> (offset: u64)
        ensures
            offset == self.byte_offset(variant_row as int, 0),
            offset <= 0xffff_fffe_0000_000d,
    {
        let size = self.record_size_bytes as u64;
        assert(variant_row as u64 * size <= 0xffff_ffff * 0xffff_ffff) by (nonlinear_arith)
            requires
                variant_row <= 0xffff_ffff,
                size <= 0xffff_ffff,
        ;
        HEADER_SIZE + variant_row as u64 * size
    }

    /// Decodes one genotype from a container image that starts with the
    /// preamble. Fails when the byte that holds it lies past the end.
    pub fn genotype_at(&self, pgen: &[u8], variant_row: u32, sample_row: u32) -> (code: Result<
        GenotypeCode,
        IoError,
    >)
        ensures
            code == self.genotype_in(pgen@, variant_row, sample_row),
    {
        let at: u64 = self.record_offset(variant_row) + (sample_row / 4) as u64;
        if at < pgen.len() as u64 {
            let byte = pgen[at as usize];
            Ok(GenotypeCode::from_packed(byte, (sample_row % 4) as u8))
        } else {
            Err(IoError::UnexpectedEof { variant_row, sample_row })
        }
    }
}

/// Decodes one genotype from the record of variant `variant_row`, read on
/// its own. Fails when the record is too short to hold the sample.
pub fn genotype_of_record(record: &[u8], variant_row: u32, sample_row: u32) -> (code: Result<
    GenotypeCode,
    IoError,
>)
    ensures
        code == RecordGeometry::genotype_in_record(record@, variant_row, sample_row),
{
    let at: usize = (sample_row / 4) as usize;
    if at < record.len() {
        Ok(GenotypeCode::from_packed(record[at], (sample_row % 4) as u8))
    } else {
        Err(IoError::UnexpectedEof { variant_row, sample_row })
    }
}

/// Decoding is a function of the container bytes and the two row indices:
/// two reads of the same cell of the same container agree.
pub proof fn lemma_decode_deterministic(
    g: RecordGeometry,
    pgen: Seq<u8>,
    variant_row: u32,
    sample_row: u32,
    first: Result<GenotypeCode, IoError>,
    second: Result<GenotypeCode, IoError>,
)
    requires
        first == g.genotype_in(pgen, variant_row, sample_row),
        second == g.genotype_in(pgen, variant_row, sample_row),
    ensures
        first == second,
{
}

/// Reading a whole record first and decoding from it gives what a single
/// read at the genotype's own offset gives, for every sample that the
/// record has room for.
pub proof fn lemma_batched_read_agrees(
    g: RecordGeometry,
    pgen: Seq<u8>,
    variant_row: u32,
    sample_row: u32,
)
    requires
        g.byte_offset(variant_row as int, 0) + g.record_size_bytes <= pgen.len(),
        sample_row / 4 < g.record_size_bytes,
    ensures
        g.genotype_in(pgen, variant_row, sample_row) == RecordGeometry::genotype_in_record(
            pgen.subrange(
                g.byte_offset(variant_row as int, 0),
                g.byte_offset(variant_row as int, 0) + g.record_size_bytes,
            ),
            variant_row,
            sample_row,
        ),
{
}

/// In a container that holds all the records that its counts declare,
/// every cell within those counts can be decoded.
pub proof fn lemma_declared_cells_decode(
    variant_count: u32,
    sample_count: u32,
    pgen: Seq<u8>,
    variant_row: u32,
    sample_row: u32,
)
    requires
        pgen.len() >= HEADER_SIZE + variant_count * record_size_bytes(sample_count as int),
        variant_row < variant_count,
        sample_row < sample_count,
    ensures
        (RecordGeometry {
            record_size_bytes: record_size_bytes(sample_count as int) as u32,
        }).genotype_in(pgen, variant_row, sample_row) is Ok,
{
    let size = record_size_bytes(sample_count as int);
    assert(sample_row as int / 4 < size);
    assert((variant_row + 1) * size <= variant_count * size) by (nonlinear_arith)
        requires
            variant_row + 1 <= variant_count,
            size >= 0,
    ;
    assert((variant_row + 1) * size == variant_row * size + size) by (nonlinear_arith);
}

/// Validation looks at the first twelve bytes only: whatever follows the
/// preamble has no part in it.
pub proof fn lemma_preamble_is_twelve_bytes(bytes: Seq<u8>)
    requires
        bytes.len() >= HEADER_SIZE,
    ensures
        validate_preamble(bytes) == validate_preamble(bytes.take(HEADER_SIZE as int)),
{
}

} // verus!
