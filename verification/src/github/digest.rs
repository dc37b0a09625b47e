//! The bytes of an asset: how many there are, and what their digest is.
use vstd::prelude::*;

use super::problem;
use super::problem::{Failure, FailureView, Problem};
use super::release;
use super::release::{ResolvedRelease, MAX_RELEASE_ASSET_BYTES};
use crate::text;

verus! {

/// The hexadecimal digits of what `sha2::Sha256::digest` makes of some bytes.
pub uninterp spec fn sha256_hex(bytes: Seq<u8>) -> Seq<char>;

/// The 64 lowercase hexadecimal digits of `sha2::Sha256::digest`.
#[verifier::external_body]
fn sha256(bytes: &[u8]) -> (hex: String)
    ensures
        hex@ == sha256_hex(bytes@),
        hex@.len() == 64,
        forall|i: int| 0 <= i < 64 ==> #[trigger] release::lower_hex(hex@[i]),
{
    format!("{:x}", <sha2::Sha256 as sha2::Digest>::digest(bytes))
}

/// The digest of some bytes as GitHub writes it.
pub open spec fn digest_of(bytes: Seq<u8>) -> Seq<char> {
    "sha256:"@ + sha256_hex(bytes)
}

/// The digest of some bytes as GitHub writes it.
pub fn digest_text(bytes: &[u8]) -> (digest: String)
    ensures
        digest@ == digest_of(bytes@),
        release::is_digest(digest@),
{
    let hex = sha256(bytes);
    let digest = text::joined("sha256:", hex.as_str());
    proof {
        reveal_strlit("sha256:");
        assert(digest@.subrange(0, 7) =~= "sha256:"@);
        assert(digest@.subrange(7, digest@.len() as int) =~= hex@);
    }
    digest
}

/// How long a package may be.
pub open spec fn package_length(length: int) -> bool {
    0 < length <= MAX_RELEASE_ASSET_BYTES
}

/// Whether a package that is to be published has the right length.
pub fn check_package_length(length: u64) -> (result: Result<(), Failure>)
    ensures
        problem::outcome(result) == (if package_length(length as int) {
            Ok(())
        } else {
            Err(problem::failed(Problem::AssetSize))
        }),
{
    if length == 0 || length > MAX_RELEASE_ASSET_BYTES {
        Err(Failure::of(Problem::AssetSize))
    } else {
        Ok(())
    }
}

/// An asset that is being received.
#[derive(Debug)]
pub struct AssetReceiver {
    size: u64,
    digest: String,
    bytes: Vec<u8>,
}

/// No more bytes than were announced, nor than may be received.
pub open spec fn fits(length: nat, size: u64) -> bool {
    length <= MAX_RELEASE_ASSET_BYTES && length <= size
}

/// What the bytes of an asset must be.
pub open spec fn asset_received(bytes: Seq<u8>, size: u64, digest: Seq<char>) -> Result<
    Seq<u8>,
    FailureView,
> {
    if bytes.len() != size {
        Err(problem::failed(Problem::Truncated))
    } else if digest_of(bytes) != digest {
        Err(problem::failed(Problem::DigestDiffers))
    } else {
        Ok(bytes)
    }
}

impl AssetReceiver {
    /// How long the asset is.
    pub closed spec fn announced(self) -> u64 {
        self.size
    }

    /// What the digest of the asset is.
    pub closed spec fn expected(self) -> Seq<char> {
        self.digest@
    }

    /// What has been received.
    pub closed spec fn received(self) -> Seq<u8> {
        self.bytes@
    }

    /// Nothing too long has been received.
    pub open spec fn wf(self) -> bool {
        fits(self.received().len(), self.announced())
    }

    /// Gets ready for the asset of a release.
    pub fn new(content_length: Option<u64>, release: &ResolvedRelease) -> (result: Result<
        Self,
        Failure,
    >)
        ensures
            match result {
                Ok(receiver) => {
                    &&& content_length is None || content_length == Some(release.asset_size)
                    &&& receiver.wf()
                    &&& receiver.announced() == release.asset_size
                    &&& receiver.expected() == release.asset_digest@
                    &&& receiver.received() == Seq::<u8>::empty()
                },
                Err(failure) => {
                    &&& content_length is Some && content_length->0 != release.asset_size
                    &&& failure@ == problem::failed(Problem::LengthDiffers)
                },
            },
    {
        if let Some(length) = content_length {
            if length != release.asset_size {
                return Err(Failure::of(Problem::LengthDiffers));
            }
        }
        Ok(
            AssetReceiver {
                size: release.asset_size,
                digest: release.asset_digest.clone(),
                bytes: Vec::new(),
            },
        )
    }

    /// Takes the next bytes, unless there are too many.
    pub fn accept(&mut self, chunk: &[u8]) -> (result: Result<(), Failure>)
        requires
            old(self).wf(),
        ensures
            final(self).wf(),
            final(self).announced() == old(self).announced(),
            final(self).expected() == old(self).expected(),
            if fits(old(self).received().len() + chunk@.len(), old(self).announced()) {
                &&& result is Ok
                &&& final(self).received() == old(self).received() + chunk@
            } else {
                &&& result is Err
                &&& result->Err_0@ == problem::failed(Problem::AssetTooLong)
                &&& final(self).received() == old(self).received()
            },
    {
        let total: u64 = self.bytes.len() as u64;
        let more: u64 = chunk.len() as u64;
        if more > MAX_RELEASE_ASSET_BYTES || total + more > MAX_RELEASE_ASSET_BYTES || total + more
            > self.size {
            return Err(Failure::of(Problem::AssetTooLong));
        }
        let mut i: usize = 0;
        let ghost before = self.bytes@;
        proof {
            assert(before =~= before + chunk@.subrange(0, 0));
        }
        while i < chunk.len()
            invariant
                i <= chunk@.len(),
                self.size == old(self).size,
                self.digest == old(self).digest,
                self.bytes@ == before + chunk@.subrange(0, i as int),
            decreases chunk@.len() - i,
        {
            self.bytes.push(chunk[i]);
            proof {
                assert(chunk@.subrange(0, i + 1) =~= chunk@.subrange(0, i as int).push(
                    chunk@[i as int],
                ));
                assert(self.bytes@ =~= before + chunk@.subrange(0, i + 1));
            }
            i = i + 1;
        }
        proof {
            assert(chunk@.subrange(0, i as int) =~= chunk@);
        }
        Ok(())
    }

    /// Hands out what was received, if it is the asset.
    pub fn finish(self) -> (result: Result<Vec<u8>, Failure>)
        ensures
            problem::outcome(result) == asset_received(
                self.received(),
                self.announced(),
                self.expected(),
            ),
    {
        if self.bytes.len() as u64 != self.size {
            return Err(Failure::of(Problem::Truncated));
        }
        let actual = digest_text(self.bytes.as_slice());
        if !text::same(actual.as_str(), self.digest.as_str()) {
            return Err(Failure::of(Problem::DigestDiffers));
        }
        Ok(self.bytes)
    }
}

/// Whatever is handed out has the length and the digest that GitHub announced.
pub proof fn received_assets_are_genuine(bytes: Seq<u8>, release: ResolvedRelease, out: Seq<u8>)
    requires
        asset_received(bytes, release.asset_size, release.asset_digest@) == Ok::<
            Seq<u8>,
            FailureView,
        >(out),
    ensures
        out == bytes,
        out.len() == release.asset_size,
        digest_of(out) == release.asset_digest@,
{
}

/// What is handed out has the announced length and digest, and what has both is
/// handed out.
pub proof fn assets_are_handed_out_where_they_agree(bytes: Seq<u8>, size: u64, digest: Seq<char>)
    ensures
        asset_received(bytes, size, digest) is Ok <==> bytes.len() == size && digest == "sha256:"@
            + sha256_hex(bytes),
        asset_received(bytes, size, digest) is Ok ==> asset_received(bytes, size, digest)->Ok_0
            == bytes,
{
}

/// A package has a byte at least, and no more than a release may have; what is
/// received never has more than was announced.
pub proof fn packages_have_limits(length: nat, size: u64)
    ensures
        package_length(length as int) <==> 1 <= length <= 276824064,
        fits(length, size) <==> length <= size && length <= 276824064,
{
}

} // verus!
