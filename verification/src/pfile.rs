//! A container session: the path prefix of the three files and the counts
//! of the validated preamble.

use vstd::prelude::*;
use vstd::string::*;
use crate::container::ContainerDescriptor;
use crate::container::RecordGeometry;
use crate::container::record_size_bytes;
use crate::container::validate_preamble;
use crate::error::FormatError;

verus! {

/// A genotype container known by the common path prefix of its three files
/// and by the counts that its preamble declares.
pub struct Pfile {
    pub pfile_prefix: String,
    pub num_variants: u32,
    pub num_samples: u32,
}

impl Pfile {
    /// Path of the binary genotype matrix.
    pub fn pgen_path(&self) -> (path: String)
        ensures
            path@ == self.pfile_prefix@ + ".pgen"@,
    {
        let mut path = self.pfile_prefix.clone();
        path.append(".pgen");
        path
    }

    /// Path of the sample metadata file.
    pub fn psam_path(&self) -> (path: String)
        ensures
            path@ == self.pfile_prefix@ + ".psam"@,
    {
        let mut path = self.pfile_prefix.clone();
        path.append(".psam");
        path
    }

    /// Path of the variant metadata file.
    pub fn pvar_path(&self) -> (path: String)
        ensures
            path@ == self.pfile_prefix@ + ".pvar"@,
    {
        let mut path = self.pfile_prefix.clone();
        path.append(".pvar");
        path
    }

    /// Opens a session on the container found under `pfile_prefix` by
    /// validating its preamble. `preamble` holds the first bytes of the
    /// genotype matrix file, as many of the first twelve as it has.
    pub fn from_prefix(pfile_prefix: String, preamble: &[u8]) -> (opened: Result<Pfile, FormatError>)
        ensures
            match validate_preamble(preamble@) {
                Ok((variants, samples)) => opened matches Ok(p) && p.pfile_prefix == pfile_prefix
                    && p.num_variants == variants && p.num_samples == samples,
                Err(e) => opened == Err::<Pfile, FormatError>(e),
            },
    {
        match ContainerDescriptor::parse(preamble) {
            Ok(d) => Ok(
                Pfile { pfile_prefix, num_variants: d.variant_count, num_samples: d.sample_count },
            ),
            Err(e) => Err(e),
        }
    }

    /// Bytes per variant record: two bits per sample, rounded up.
    pub fn variant_record_size(&self) -> (size: u32)
        ensures
            size == record_size_bytes(self.num_samples as int),
            8 * (size - 1) < 2 * self.num_samples <= 8 * size,
    {
        let bits: u64 = self.num_samples as u64 * 2;
        ((bits + 7) / 8) as u32
    }

    /// The record geometry of this container.
    pub fn geometry(&self) -> (g: RecordGeometry)
        ensures
            g.record_size_bytes == record_size_bytes(self.num_samples as int),
    {
        RecordGeometry { record_size_bytes: self.variant_record_size() }
    }
}

} // verus!
