//! What can go wrong while pages are made ready.

use vstd::prelude::*;

verus! {

/// Why a conversion stopped. Each of these ends the whole run: a page that
/// is left out would shift every page after it.
#[derive(Clone, Copy, Debug, PartialEq, Eq, Structural)]
pub enum Error {
    /// None of the files is a picture.
    NoImagesFound,
    /// A file that goes under a picture's name could not be read as one.
    DecodeFailure,
    /// A page could not be written in the chosen format.
    EncodeFailure,
    /// The resolution asks for more samples than the machine can address.
    ResolutionTooLarge,
}

} // verus!
