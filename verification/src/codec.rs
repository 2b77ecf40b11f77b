//! Bytes as text, and bytes as a digest.
use base64::engine::general_purpose::STANDARD;
use base64::Engine;
use sha2::Digest;
use vstd::prelude::*;

verus! {

/// `base64::DecodeError`: why a text is no base64.
#[verifier::external_type_specification]
#[verifier::external_body]
pub struct ExDecodeError(base64::DecodeError);

/// The bytes that a text stands for in base64 with the standard alphabet, if it does.
pub uninterp spec fn decoded(text: Seq<char>) -> Option<Seq<u8>>;

/// `base64::Engine::decode` of the standard engine. Whether the text is base64, and
/// which bytes it stands for, depends on the text alone.
#[verifier::external_body]
fn decode_standard(text: &str) -> (res: Result<Vec<u8>, base64::DecodeError>)
    ensures
        res matches Ok(bytes) ==> decoded(text@) == Some(bytes@),
        res is Err ==> decoded(text@) is None,
{
    STANDARD.decode(text)
}

/// The text that bytes are written as in base64 with the standard alphabet.
pub uninterp spec fn encoded(bytes: Seq<u8>) -> Seq<char>;

/// `base64::Engine::encode` of the standard engine: a text that depends on the bytes
/// alone, and decodes to them.
#[verifier::external_body]
fn encode_standard(bytes: &[u8]) -> (text: String)
    requires
        bytes@.len() <= isize::MAX / 2,
    ensures
        text@ == encoded(bytes@),
        decoded(text@) == Some(bytes@),
{
    STANDARD.encode(bytes)
}

/// The bytes that a text stands for, if it is base64.
pub fn decode(text: &str) -> (res: Option<Vec<u8>>)
    ensures
        res is Some <==> decoded(text@) is Some,
        res matches Some(bytes) ==> decoded(text@) == Some(bytes@),
{
    match decode_standard(text) {
        Ok(bytes) => Some(bytes),
        Err(_) => None,
    }
}

/// Bytes as a text that they can be had back from.
pub fn encode(bytes: &[u8]) -> (text: String)
    requires
        bytes@.len() <= isize::MAX / 2,
    ensures
        text@ == encoded(bytes@),
        decoded(text@) == Some(bytes@),
{
    encode_standard(bytes)
}

/// A `sha2::Sha256` with the bytes that it has been fed.
#[verifier::external_body]
#[derive(Debug)]
pub struct Hasher {
    inner: sha2::Sha256,
}

/// The bytes that a hasher has been fed.
pub uninterp spec fn fed(hasher: Hasher) -> Seq<u8>;

/// The SHA-256 of bytes, in hexadecimal digits.
pub uninterp spec fn sha256(bytes: Seq<u8>) -> Seq<char>;

/// `sha2::Sha256::new`: nothing has been fed.
#[verifier::external_body]
fn new_hasher() -> (hasher: Hasher)
    ensures
        fed(hasher) == Seq::<u8>::empty(),
{
    Hasher { inner: sha2::Sha256::new() }
}

/// `sha2::Digest::update`: the bytes are fed behind those before them.
#[verifier::external_body]
fn update_hasher(hasher: &mut Hasher, bytes: &[u8])
    ensures
        fed(*final(hasher)) == fed(*old(hasher)) + bytes@,
{
    hasher.inner.update(bytes)
}

/// `sha2::Digest::finalize`, written in hexadecimal digits: the digest of all that was
/// fed, which depends on nothing else.
#[verifier::external_body]
fn finish_hasher(hasher: Hasher) -> (text: String)
    ensures
        text@ == sha256(fed(hasher)),
{
    format!("{:x}", hasher.inner.finalize())
}

/// The digest of bytes that come piece by piece.
#[derive(Debug)]
pub struct Hashing {
    hasher: Hasher,
}

impl Hashing {
    /// The bytes so far.
    pub closed spec fn bytes(&self) -> Seq<u8> {
        fed(self.hasher)
    }

    pub fn new() -> (h: Hashing)
        ensures
            h.bytes() == Seq::<u8>::empty(),
    {
        Hashing { hasher: new_hasher() }
    }

    pub fn update(&mut self, piece: &[u8])
        ensures
            final(self).bytes() == old(self).bytes() + piece@,
    {
        update_hasher(&mut self.hasher, piece);
    }

    /// The digest of all pieces, as if they had come in one.
    pub fn hex(self) -> (text: String)
        ensures
            text@ == sha256(self.bytes()),
    {
        finish_hasher(self.hasher)
    }
}

} // verus!
