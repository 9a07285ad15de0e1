use aws_lc_rs::hmac;
use vstd::prelude::*;

verus! {

/// The hash function under HMAC, and so the digest length of every tag.
#[derive(Clone, Copy, Debug, PartialEq, Eq, Structural)]
pub enum Algorithm {
    Sha256,
    Sha384,
    Sha512,
}

impl Algorithm {
    /// Length in bytes of one HMAC tag.
    pub open spec fn spec_digest_len(self) -> nat {
        match self {
            Algorithm::Sha256 => 32,
            Algorithm::Sha384 => 48,
            Algorithm::Sha512 => 64,
        }
    }

    /// Length in bytes of one HMAC tag.
    pub fn digest_len(&self) -> (r: usize)
        ensures
            r == self.spec_digest_len(),
    {
        match self {
            Algorithm::Sha256 => 32,
            Algorithm::Sha384 => 48,
            Algorithm::Sha512 => 64,
        }
    }
}

/// The HMAC tag of `msg` under the key `key`.
pub uninterp spec fn hmac_tag(alg: Algorithm, key: Seq<u8>, msg: Seq<u8>) -> Seq<u8>;

/// Relies on `aws_lc_rs::hmac::Key::new` and `aws_lc_rs::hmac::sign`: the tag
/// is a function of the algorithm, the key bytes and the message alone, and is
/// `tag_len()` bytes long, that is the digest's output length. Keys of any
/// length are accepted, the empty key included.
#[verifier::external_body]
pub(crate) fn sign(alg: Algorithm, key: &[u8], msg: &[u8]) -> (r: Vec<u8>)
    ensures
        r@ == hmac_tag(alg, key@, msg@),
        r@.len() == alg.spec_digest_len(),
{
    let algorithm = match alg {
        Algorithm::Sha256 => hmac::HMAC_SHA256,
        Algorithm::Sha384 => hmac::HMAC_SHA384,
        Algorithm::Sha512 => hmac::HMAC_SHA512,
    };
    hmac::sign(&hmac::Key::new(algorithm, key), msg).as_ref().to_vec()
}

} // verus!
