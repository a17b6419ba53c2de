use vstd::prelude::*;

verus! {

/// The error conditions this protocol layer defines. How an error is carried
/// back to a caller is the business of the hosting runtime; every error here
/// is terminal for the call in which it arises.
#[derive(Debug, PartialEq, Eq)]
pub enum VaultError {
    /// A `Token` conversion was attempted against the wrong variant. Carries
    /// the identifying string of the offending token for diagnostics.
    InvalidTokenKind { value: String },
    /// The host's address validator rejected a synthetic token's address
    /// string. Raised at the runtime boundary, never by this layer itself.
    MalformedAddress { address: String },
    /// An `Extension` payload named a capability this vault does not have
    /// enabled. The whole call is rejected; nothing is partially applied.
    UnsupportedExtension { capability: String },
    /// A command's amount exceeded the corresponding `Max*` bound, or the
    /// vault's accounting could not represent the result. Never a silent
    /// clamp.
    LimitExceeded { amount: u128 },
}

} // verus!
