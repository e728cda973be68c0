//! Content digests: a streaming SHA-256 context fed with plain byte
//! chunks.  The hash itself is an outside computation; everything
//! downstream of it — hex encoding and the accept/reject decision on a
//! fetched artifact — is verified.

use vstd::prelude::*;
use crate::strutil::hex_of;
use crate::strutil::to_hex;

verus! {

/// The SHA-256 digest of a byte sequence, as the sha2 crate computes it.
pub uninterp spec fn sha256_of(data: Seq<u8>) -> Seq<u8>;

#[verifier::external_type_specification]
#[verifier::external_body]
pub struct ExSha256(sha2::Sha256);

/// The bytes fed to a hasher so far.
pub uninterp spec fn sha_fed_raw(h: sha2::Sha256) -> Seq<u8>;

/// A streaming SHA-256 computation, holding the outside hasher.
pub struct Sha256Ctx {
    pub inner: sha2::Sha256,
}

/// The bytes fed to a context so far.
pub open spec fn sha_fed(ctx: Sha256Ctx) -> Seq<u8> {
    sha_fed_raw(ctx.inner)
}

impl Sha256Ctx {
    /// Relies on `sha2::Sha256::new`: a fresh hasher has digested
    /// nothing.
    #[verifier::external_body]
    pub fn new() -> (ctx: Self)
        ensures
            sha_fed_raw(ctx.inner) == Seq::<u8>::empty(),
    {
        Sha256Ctx { inner: <sha2::Sha256 as sha2::Digest>::new() }
    }

    /// Relies on `sha2::Sha256::update`: appends the chunk to the bytes
    /// being digested.
    #[verifier::external_body]
    pub fn update(&mut self, chunk: &[u8])
        ensures
            sha_fed_raw(final(self).inner) == sha_fed_raw(old(self).inner) + chunk@,
    {
        <sha2::Sha256 as sha2::Digest>::update(&mut self.inner, chunk);
    }

    /// Relies on `sha2::Sha256::finalize`: returns the 32-byte SHA-256
    /// digest of everything fed, a function of those bytes alone.
    #[verifier::external_body]
    pub fn finalize(self) -> (r: Vec<u8>)
        ensures
            r@ == sha256_of(sha_fed_raw(self.inner)),
            r@.len() == 32,
    {
        let out = <sha2::Sha256 as sha2::Digest>::finalize(self.inner);
        out.as_slice().to_vec()
    }
}

/// The lowercase-hex SHA-256 digest of everything fed to the context.
pub open spec fn sha256_hex_of(data: Seq<u8>) -> Seq<char> {
    hex_of(sha256_of(data))
}

impl Sha256Ctx {
    /// Finish the digest and render it as lowercase hex: 64 characters,
    /// two per digest byte.
    pub fn finalize_hex(self) -> (r: String)
        ensures
            r@ == sha256_hex_of(sha_fed(self)),
            r@.len() == 64,
    {
        let raw = self.finalize();
        proof {
            crate::strutil::lemma_hex_of_len(raw@);
        }
        to_hex(&raw)
    }
}

/// The SHA-256 digest of a whole buffer, as lowercase hex: 64
/// characters, two per digest byte.
pub fn sha256_hex(data: &Vec<u8>) -> (r: String)
    ensures
        r@ == sha256_hex_of(data@),
        r@.len() == 64,
{
    let mut ctx = Sha256Ctx::new();
    ctx.update(data.as_slice());
    proof {
        assert(Seq::<u8>::empty() + data@ =~= data@);
    }
    ctx.finalize_hex()
}

} // verus!
