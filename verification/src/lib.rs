//! UEFI SBAT (Secure Boot Advanced Targeting).
//!
//! SBAT is used to revoke insecure UEFI executables in a way that won't
//! eat up the limited storage space available in the UEFI environment.
//!
//! There are two important sources of data:
//! 1. The SBAT metadata associated with each image describes the
//!    components in that image.
//! 2. The SBAT revocation data stored in a UEFI variable provides a
//!    list of component versions that are no longer allowed to boot.
//!
//! Each entry in the revocation list contains component name and
//! generation fields. (The first entry may also have a date field,
//! which acts as a version for the whole revocation list.) When
//! validating an image, each component in the image is checked against
//! the revocation entries. If the name matches, and if the component's
//! generation is less than the generation in the corresponding
//! revocation entry, the component is considered revoked and the image
//! will not pass validation.
//!
//! The library starts from raw bytes containing the CSV; it does not
//! read PE binaries or UEFI variables. All text is handled as byte
//! slices that have been checked to hold only 7-bit ASCII. Every parser
//! is specified against a mathematical model over `Seq<u8>`; the models
//! live next to the code they describe.

pub mod array;
pub mod component;
pub mod csv;
pub mod error;
pub mod format;
pub mod generation;
pub mod generation_order;
pub mod image;
pub mod lines;
pub mod metadata;
pub mod owned;
pub mod revocation_list;
pub mod revocation_section;
pub mod revocations;
pub mod round_trip;
pub mod table;
pub mod text;
pub mod vec;

pub use array::{ImageSbatArray, RevocationSbatArray};
pub use component::Component;
pub use csv::{CsvIter, Record, ALLOWED_SPECIAL_CHARS};
pub use error::ParseError;
pub use generation::Generation;
pub use image::{Entries, Entry, ImageSbat, Vendor, SBAT_SECTION_NAME};
pub use lines::LineIter;
pub use metadata::Metadata;
pub use owned::{ImageSbatOwned, RevocationSbatOwned};
pub use revocation_section::{
    RevocationSection, RevocationSectionError, REVOCATION_SECTION_NAME,
};
pub use revocations::ValidationResult::{Allowed, Revoked};
pub use revocations::{RevocationSbat, RevokedComponents, ValidationResult};
pub use vec::{ArrayStorage, SliceVec, Veclike};
