//! Errors of an atlas run.

use image::ImageError;
use vstd::prelude::*;

verus! {

#[verifier::external_type_specification]
#[verifier::external_body]
pub struct ExIoError(std::io::Error);

/// Why an atlas run failed.
#[derive(Debug)]
pub enum AtlasError {
    /// An image could not be read or decoded.
    ImageError(ImageError),
    /// An atlas could not be written.
    IoError(std::io::Error),
    /// An image, margins included, is larger than the atlas size.
    SizeError,
    /// The images do not fit into the allowed number of atlases.
    PackingError,
}

impl From<ImageError> for AtlasError {
    fn from(err: ImageError) -> AtlasError {
        AtlasError::ImageError(err)
    }
}

impl vstd::std_specs::convert::FromSpecImpl<ImageError> for AtlasError {
    open spec fn obeys_from_spec() -> bool {
        true
    }

    open spec fn from_spec(err: ImageError) -> AtlasError {
        AtlasError::ImageError(err)
    }
}

impl From<std::io::Error> for AtlasError {
    fn from(err: std::io::Error) -> AtlasError {
        AtlasError::IoError(err)
    }
}

impl vstd::std_specs::convert::FromSpecImpl<std::io::Error> for AtlasError {
    open spec fn obeys_from_spec() -> bool {
        true
    }

    open spec fn from_spec(err: std::io::Error) -> AtlasError {
        AtlasError::IoError(err)
    }
}

} // verus!
