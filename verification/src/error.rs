//! What can go wrong in a discovery round.

use vstd::prelude::*;

verus! {

/// `std::io::Error`, carried through as it came from the operating system.
/// Nothing is known of what is inside.
#[verifier::external_type_specification]
#[verifier::external_body]
pub struct ExIoError(std::io::Error);

/// Peer discovery error.
#[derive(Debug)]
pub enum DiscoveryError {
    /// A socket could not be used, or the local interfaces could not be
    /// listed.
    Io(std::io::Error),
    /// A message could not be put into its wire form.
    SerializeFailure,
    /// What came back could not be opened, or is not a response.
    InvalidResponse,
}

} // verus!
