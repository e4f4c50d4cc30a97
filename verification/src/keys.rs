//! Keys, signatures and digests.
//!
//! The curve arithmetic and the hash function are not part of this
//! library.  Keys are kept as their byte encodings; what the curve library
//! and the hash function compute from such bytes is named here and used
//! under that name by the rest of the library.

use vstd::prelude::*;

verus! {

/// The length of a compact signature.
pub const COMPACT_SIGNATURE_SIZE: usize = 64;

/// The BLAKE2s-256 digest of `data`.
pub uninterp spec fn blake2s_256(data: Seq<u8>) -> Seq<u8>;

/// The compressed encoding of the curve point that `data` encodes, if it
/// encodes one.
pub uninterp spec fn secp256k1_public_key(data: Seq<u8>) -> Option<Seq<u8>>;

/// Whether `data` is a secret key of the curve.
pub uninterp spec fn secp256k1_secret_key_valid(data: Seq<u8>) -> bool;

/// The compressed encoding of the public key that belongs to the secret key
/// `secret`.
pub uninterp spec fn secp256k1_public_key_of(secret: Seq<u8>) -> Seq<u8>;

/// The compact encoding of the ECDSA signature, with the nonce of RFC 6979,
/// of `digest` under the secret key `secret`.
pub uninterp spec fn secp256k1_ecdsa_signature(digest: Seq<u8>, secret: Seq<u8>) -> Seq<u8>;

/// Whether `signature` is the compact encoding of an ECDSA signature that
/// verifies for `digest` under the public key encoded by `key`.
pub uninterp spec fn secp256k1_ecdsa_verifies(
    digest: Seq<u8>,
    signature: Seq<u8>,
    key: Seq<u8>,
) -> bool;

/// Hashes `data`.
///
/// Trusted: `blake2::Blake2s256` through `Digest::digest`.  The contract
/// gives the 32 bytes that come back their name.
#[verifier::external_body]
pub(crate) fn blake2s(data: &[u8]) -> (digest: [u8; 32])
    ensures
        digest@ == blake2s_256(data@),
{
    <blake2::Blake2s256 as blake2::Digest>::digest(data).into()
}

/// Parses a public key and encodes it again in compressed form.
///
/// Trusted: `secp256k1::PublicKey::from_slice`, which fails unless `data`
/// has 33 or 65 bytes and encodes a curve point, and
/// `PublicKey::serialize`.  The contract names the result and says nothing
/// else.
#[verifier::external_body]
fn parse_public_key(data: &[u8]) -> (key: Option<[u8; 33]>)
    ensures
        key is Some == secp256k1_public_key(data@) is Some,
        key is Some ==> key->0@ == secp256k1_public_key(data@)->0,
{
    match secp256k1::PublicKey::from_slice(data) {
        Ok(key) => Some(key.serialize()),
        Err(_) => None,
    }
}

/// Checks a secret key.
///
/// Trusted: `secp256k1::SecretKey::from_secret_bytes`, which fails when
/// the bytes are all zero or not below the curve order.
#[verifier::external_body]
fn check_secret_key(data: &[u8; 32]) -> (valid: bool)
    ensures
        valid == secp256k1_secret_key_valid(data@),
{
    secp256k1::SecretKey::from_secret_bytes(*data).is_ok()
}

/// Derives the public key of a secret key.
///
/// Trusted: `secp256k1::SecretKey::from_secret_bytes`,
/// `PublicKey::from_secret_key` and `PublicKey::serialize`.  `None` comes
/// back exactly for bytes that are no secret key.
#[verifier::external_body]
fn derive_public_key(secret: &[u8; 32]) -> (key: Option<[u8; 33]>)
    ensures
        key is Some == secp256k1_secret_key_valid(secret@),
        key is Some ==> key->0@ == secp256k1_public_key_of(secret@),
{
    match secp256k1::SecretKey::from_secret_bytes(*secret) {
        Ok(sk) => Some(secp256k1::PublicKey::from_secret_key(&sk).serialize()),
        Err(_) => None,
    }
}

/// Signs a digest.
///
/// Trusted: `secp256k1::SecretKey::from_secret_bytes`,
/// `secp256k1::ecdsa::sign`, which derives its nonce from the digest and
/// the key alone, and `Signature::serialize_compact`.  `None` comes back
/// exactly for bytes that are no secret key.
#[verifier::external_body]
fn sign_digest(digest: &[u8; 32], secret: &[u8; 32]) -> (signature: Option<[u8; 64]>)
    ensures
        signature is Some == secp256k1_secret_key_valid(secret@),
        signature is Some ==> signature->0@ == secp256k1_ecdsa_signature(digest@, secret@),
{
    match secp256k1::SecretKey::from_secret_bytes(*secret) {
        Ok(sk) => Some(
            secp256k1::ecdsa::sign(secp256k1::Message::from_digest(*digest), &sk).serialize_compact(),
        ),
        Err(_) => None,
    }
}

/// Verifies a compact signature.
///
/// Trusted: `secp256k1::ecdsa::Signature::from_compact`,
/// `secp256k1::PublicKey::from_slice` and `secp256k1::ecdsa::verify`.  The
/// result is `false` when either encoding is refused or the signature does
/// not verify; the contract names the result and says nothing else.
#[verifier::external_body]
fn verify_digest(digest: &[u8; 32], signature: &[u8], key: &[u8]) -> (valid: bool)
    ensures
        valid == secp256k1_ecdsa_verifies(digest@, signature@, key@),
{
    match (secp256k1::ecdsa::Signature::from_compact(signature), secp256k1::PublicKey::from_slice(key)) {
        (Ok(sig), Ok(pk)) => secp256k1::ecdsa::verify(
            &sig,
            secp256k1::Message::from_digest(*digest),
            &pk,
        ).is_ok(),
        _ => false,
    }
}

/// Whether two byte strings are equal.
pub fn bytes_eq(a: &[u8], b: &[u8]) -> (r: bool)
    ensures
        r == (a@ == b@),
{
    if a.len() != b.len() {
        return false;
    }
    let mut i: usize = 0;
    while i < a.len()
        invariant
            i <= a@.len(),
            a@.len() == b@.len(),
            forall|j: int| 0 <= j < i ==> a@[j] == b@[j],
        decreases a@.len() - i,
    {
        if a[i] != b[i] {
            return false;
        }
        i += 1;
    }
    assert(a@ =~= b@);
    true
}

/// A public key of the curve, kept in compressed encoding.
#[derive(Clone, Copy, Debug, PartialEq, Eq)]
pub struct PublicKey {
    bytes: [u8; 33],
}

impl View for PublicKey {
    type V = Seq<u8>;

    closed spec fn view(&self) -> Seq<u8> {
        self.bytes@
    }
}

/// The compressed encoding of the curve point that `data` encodes, if the
/// curve library accepts `data` and reads that encoding as itself again.
pub open spec fn public_key_from(data: Seq<u8>) -> Option<Seq<u8>> {
    match secp256k1_public_key(data) {
        Some(encoding) => if is_public_key(encoding) {
            Some(encoding)
        } else {
            None
        },
        None => None,
    }
}

/// `encoding` is a compressed public key: 33 bytes that the curve library
/// accepts and encodes as themselves.
pub open spec fn is_public_key(encoding: Seq<u8>) -> bool {
    encoding.len() == 33 && secp256k1_public_key(encoding) == Some(encoding)
}

impl PublicKey {
    /// The key is a compressed public key.
    pub open spec fn wf(&self) -> bool {
        is_public_key(self@)
    }

    /// The key of an encoding that the curve library has produced, if the
    /// library reads it as itself.
    fn from_encoding(bytes: [u8; 33]) -> (key: Option<PublicKey>)
        ensures
            key is Some == is_public_key(bytes@),
            key is Some ==> key->0@ == bytes@ && key->0.wf(),
    {
        match parse_public_key(bytes.as_slice()) {
            Some(again) => if bytes_eq(again.as_slice(), bytes.as_slice()) {
                Some(PublicKey { bytes })
            } else {
                None
            },
            None => None,
        }
    }

    /// Parses a compressed or uncompressed public key.
    pub fn from_slice(data: &[u8]) -> (key: Option<PublicKey>)
        ensures
            key is Some == public_key_from(data@) is Some,
            key is Some ==> key->0@ == public_key_from(data@)->0 && key->0.wf(),
    {
        match parse_public_key(data) {
            Some(bytes) => Self::from_encoding(bytes),
            None => None,
        }
    }

    /// The public key that belongs to a secret key.
    pub fn from_secret_key(secret: &SecretKey) -> (key: Option<PublicKey>)
        ensures
            key is Some == (secp256k1_secret_key_valid(secret@) && is_public_key(
                secp256k1_public_key_of(secret@),
            )),
            key is Some ==> key->0@ == secp256k1_public_key_of(secret@) && key->0.wf(),
    {
        match derive_public_key(&secret.bytes) {
            Some(bytes) => Self::from_encoding(bytes),
            None => None,
        }
    }

    /// The compressed encoding.
    pub fn serialize(&self) -> (bytes: [u8; 33])
        ensures
            bytes@ == self@,
    {
        self.bytes
    }

    /// The compressed encoding.
    pub fn as_bytes(&self) -> (bytes: &[u8])
        ensures
            bytes@ == self@,
            bytes@.len() == 33,
    {
        self.bytes.as_slice()
    }

    /// Whether two keys are the same.
    pub fn same(&self, other: &PublicKey) -> (r: bool)
        ensures
            r == (self@ == other@),
    {
        bytes_eq(self.bytes.as_slice(), other.bytes.as_slice())
    }

    /// Whether `signature` is a compact signature of `digest` under this
    /// key.
    pub fn verifies(&self, digest: &[u8; 32], signature: &[u8]) -> (valid: bool)
        ensures
            valid == secp256k1_ecdsa_verifies(digest@, signature@, self@),
    {
        verify_digest(digest, signature, self.bytes.as_slice())
    }
}

/// A secret key of the curve.
#[derive(Clone, Copy, Debug, PartialEq, Eq)]
pub struct SecretKey {
    bytes: [u8; 32],
}

impl View for SecretKey {
    type V = Seq<u8>;

    closed spec fn view(&self) -> Seq<u8> {
        self.bytes@
    }
}

impl SecretKey {
    /// The bytes are a secret key of the curve.
    pub open spec fn wf(&self) -> bool {
        self@.len() == 32 && secp256k1_secret_key_valid(self@)
    }

    /// Parses a secret key: 32 bytes that the curve accepts.
    pub fn from_slice(data: &[u8]) -> (key: Option<SecretKey>)
        ensures
            key is Some == (data@.len() == 32 && secp256k1_secret_key_valid(data@)),
            key is Some ==> key->0@ == data@ && key->0.wf(),
    {
        if data.len() != 32 {
            return None;
        }
        let bytes = array_from_slice_32(data, 0);
        assert(bytes@ =~= data@);
        if check_secret_key(&bytes) {
            Some(SecretKey { bytes })
        } else {
            None
        }
    }

    /// The bytes of the key.
    pub fn as_bytes(&self) -> (bytes: &[u8])
        ensures
            bytes@ == self@,
            bytes@.len() == 32,
    {
        self.bytes.as_slice()
    }

    /// The compact signature of `digest` under this key.
    pub fn sign(&self, digest: &[u8; 32]) -> (signature: Option<[u8; 64]>)
        ensures
            signature is Some == secp256k1_secret_key_valid(self@),
            signature is Some ==> signature->0@ == secp256k1_ecdsa_signature(digest@, self@),
    {
        sign_digest(digest, &self.bytes)
    }
}

/// The 32 bytes of `data` from position `at` on.
pub fn array_from_slice_32(data: &[u8], at: usize) -> (out: [u8; 32])
    requires
        at + 32 <= data@.len(),
    ensures
        out@ == data@.subrange(at as int, at + 32),
{
    let mut out = [0u8; 32];
    let total: usize = data.len();
    let mut i: usize = 0;
    while i < 32
        invariant
            i <= 32,
            at + 32 <= total,
            total == data@.len(),
            forall|j: int| 0 <= j < i ==> out@[j] == data@[at + j],
        decreases 32 - i,
    {
        out[i] = data[at + i];
        i += 1;
    }
    assert(out@ =~= data@.subrange(at as int, at + 32));
    out
}

impl crate::wire::Layout for PublicKey {
    type Model = Seq<u8>;

    open spec fn model(&self) -> Seq<u8> {
        self@
    }

    open spec fn encodable(v: Seq<u8>) -> bool {
        is_public_key(v)
    }

    open spec fn encoding(v: Seq<u8>) -> Seq<u8> {
        v
    }

    /// The next 33 bytes, if they are a compressed public key.
    open spec fn parse(bytes: Seq<u8>, at: int) -> Option<(Seq<u8>, int)> {
        match crate::wire::take(bytes, at, 33) {
            Some(piece) => if is_public_key(piece) {
                Some((piece, at + 33))
            } else {
                None
            },
            None => None,
        }
    }
}

impl crate::wire::Wire for PublicKey {
    fn write(&self, out: &mut Vec<u8>) {
        crate::wire::append(out, self.bytes.as_slice());
    }

    fn read(bytes: &[u8], at: usize) -> (r: Option<(PublicKey, usize)>) {
        match crate::wire::take_bytes(bytes, at, 33) {
            Some(piece) => match parse_public_key(piece) {
                Some(encoding) => if bytes_eq(encoding.as_slice(), piece) {
                    Some((PublicKey { bytes: encoding }, at + 33))
                } else {
                    None
                },
                None => None,
            },
            None => None,
        }
    }

    proof fn lemma_parse_encoding(v: Seq<u8>, bytes: Seq<u8>, at: int) {
    }

    proof fn lemma_parse_sound(bytes: Seq<u8>, at: int) {
    }
}

impl crate::wire::Layout for SecretKey {
    type Model = Seq<u8>;

    open spec fn model(&self) -> Seq<u8> {
        self@
    }

    open spec fn encodable(v: Seq<u8>) -> bool {
        v.len() == 32 && secp256k1_secret_key_valid(v)
    }

    open spec fn encoding(v: Seq<u8>) -> Seq<u8> {
        v
    }

    /// The next 32 bytes, if they are a secret key.
    open spec fn parse(bytes: Seq<u8>, at: int) -> Option<(Seq<u8>, int)> {
        match crate::wire::take(bytes, at, 32) {
            Some(piece) => if secp256k1_secret_key_valid(piece) {
                Some((piece, at + 32))
            } else {
                None
            },
            None => None,
        }
    }
}

impl crate::wire::Wire for SecretKey {
    fn write(&self, out: &mut Vec<u8>) {
        crate::wire::append(out, self.bytes.as_slice());
    }

    fn read(bytes: &[u8], at: usize) -> (r: Option<(SecretKey, usize)>) {
        match crate::wire::take_bytes(bytes, at, 32) {
            Some(piece) => match SecretKey::from_slice(piece) {
                Some(key) => Some((key, at + 32)),
                None => None,
            },
            None => None,
        }
    }

    proof fn lemma_parse_encoding(v: Seq<u8>, bytes: Seq<u8>, at: int) {
    }

    proof fn lemma_parse_sound(bytes: Seq<u8>, at: int) {
    }
}

} // verus!
