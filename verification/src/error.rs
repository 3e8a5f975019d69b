//! What can go wrong while an archive is written.

use vstd::prelude::*;

verus! {

/// The failure of one writer operation. None is retried or recovered from
/// inside the library.
#[derive(Debug)]
pub enum CarError {
    /// The header could not be encoded.
    Encode,
    /// A block's content identifier could not be put in its binary form.
    CidEncode,
    /// The sink refused a write or a flush.
    Io(std::io::Error),
}

} // verus!
