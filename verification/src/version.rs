use vstd::prelude::*;
use crate::error::WalletError;

verus! {

/// The version of the records that this program writes.
pub const VERSION: u32 = 0;

/// A record that tells the version it was written under.
pub trait Versioned {
    /// The version that the stored bytes were written under, where they are
    /// long enough to tell.
    spec fn stored_version(src: Seq<u8>) -> Option<u32>;

    /// Reads the version from the stored bytes. Refused where they are too
    /// short to hold one.
    fn version_from_slice(src: &[u8]) -> (r: Result<u32, WalletError>)
        ensures
            match Self::stored_version(src@) {
                Some(version) => r == Ok::<u32, WalletError>(version),
                None => r == Err::<u32, WalletError>(WalletError::InvalidAccountData),
            },
    ;
}

} // verus!
