//! Random-access decoding of fixed-width two-bit genotype containers and
//! parsing of the annotation micro-languages of their variant metadata.

pub mod container;
pub mod error;
pub mod filter;
pub mod genotype;
pub mod info_map;
pub mod metadata;
pub mod pfile;
pub mod pvar_parser;
pub mod text;
pub mod vcf;
