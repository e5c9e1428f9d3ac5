//! The SHA-256 computation, which the `sha2` crate performs.

use vstd::prelude::*;

verus! {

/// The SHA-256 digest of `data`, as `sha2` computes it.
pub uninterp spec fn sha256(data: Seq<u8>) -> Seq<u8>;

/// The bytes that a hasher has been fed so far, in the order they came.
pub uninterp spec fn fed(hasher: Sha256) -> Seq<u8>;

/// A running SHA-256 computation: the hasher of `sha2`, fed piece by piece.
/// What it holds is known by [`fed`] alone.
#[verifier::external_body]
pub struct Sha256(sha2::Sha256);

/// `sha2::Digest::new` for `sha2::Sha256`: a hasher that has been fed nothing.
#[verifier::external_body]
fn sha2_new() -> (hasher: Sha256)
    ensures
        fed(hasher) == Seq::<u8>::empty(),
{
    Sha256(sha2::Digest::new())
}

/// `sha2::Digest::update`: feeds `data` to the hasher, after what it already has.
#[verifier::external_body]
fn sha2_update(hasher: &mut Sha256, data: &[u8])
    ensures
        fed(*final(hasher)) == fed(*old(hasher)) + data@,
{
    sha2::Digest::update(&mut hasher.0, data)
}

/// `sha2::Digest::finalize`: the digest of all that the hasher was fed, as 32 bytes.
#[verifier::external_body]
pub(crate) fn sha2_finalize(hasher: Sha256) -> (out: [u8; 32])
    ensures
        out@ == sha256(fed(hasher)),
{
    sha2::Digest::finalize(hasher.0).into()
}

impl Sha256 {
    /// A hasher that has been fed nothing.
    pub fn new() -> (hasher: Self)
        ensures
            fed(hasher) == Seq::<u8>::empty(),
    {
        sha2_new()
    }

    /// Feeds `data` to the hasher, after what it already has.
    pub fn update(&mut self, data: &[u8])
        ensures
            fed(*final(self)) == fed(*old(self)) + data@,
    {
        sha2_update(self, data)
    }
}

} // verus!
