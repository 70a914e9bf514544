//! Error kinds of the decoder and builder.

use vstd::prelude::*;

verus! {

/// What can go wrong while reading one archive.
#[derive(Debug)]
pub enum EdigeoError {
    /// The archive could not be read.
    Io(String),
    /// The container is not a well-formed archive.
    InvalidArchive(String),
    /// A required file is absent from the archive.
    MissingFile(String),
    /// A file could not be parsed.
    ParseError { file: String, reason: String },
    /// A feature's geometry is unusable.
    InvalidGeometry { entity_id: String, reason: String },
    /// The text encoding named by the header is not recognised.
    UnsupportedEncoding(String),
    /// The projection named by the geography file is not recognised.
    UnknownProjection(String),
    /// Ring reconstruction failed for a feature.
    RepairFailed { entity_id: String, reason: String },
}

impl EdigeoError {
    /// A parse error for one file.
    pub fn parse_error(file: &str, reason: &str) -> (e: Self)
        ensures
            e matches EdigeoError::ParseError { file: f, reason: r } && f@ == file@ && r@
                == reason@,
    {
        EdigeoError::ParseError { file: file.to_owned(), reason: reason.to_owned() }
    }

    /// An invalid-geometry error for one entity.
    pub fn invalid_geometry(entity_id: &str, reason: &str) -> (e: Self)
        ensures
            e matches EdigeoError::InvalidGeometry { entity_id: i, reason: r } && i@ == entity_id@
                && r@ == reason@,
    {
        EdigeoError::InvalidGeometry {
            entity_id: entity_id.to_owned(),
            reason: reason.to_owned(),
        }
    }
}

} // verus!
