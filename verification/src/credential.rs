//! The credential codec: a password is stored as a salted digest and checked
//! against it.

use rand::RngCore;
use sha2::Sha256;
use vstd::prelude::*;
use vstd::utf8::encode_utf8;

verus! {

/// The number of bytes in a salt.
pub const SALT_LEN: usize = 16;

/// The number of bytes in a digest.
pub const DIGEST_LEN: usize = 32;

/// The number of rounds of the key derivation.
pub const ROUNDS: u32 = 100_000;

/// The key of `len` bytes that PBKDF2 with HMAC-SHA-256 derives from `password` and
/// `salt` in `rounds` rounds.
pub uninterp spec fn derived_key(password: Seq<u8>, salt: Seq<u8>, rounds: u32, len: nat) -> Seq<
    u8,
>;

/// Calls `pbkdf2::pbkdf2_hmac` with SHA-256 on a buffer of `len` bytes. The function
/// fills the buffer it is given and keeps its length; what it fills it with depends on
/// the password, the salt, the number of rounds and that length alone, and is named
/// here, not computed.
#[verifier::external_body]
fn derive_key(password: &[u8], salt: &[u8], rounds: u32, len: usize) -> (key: Vec<u8>)
    ensures
        key@ == derived_key(password@, salt@, rounds, len as nat),
        key.len() == len,
{
    let mut key = vec![0u8; len];
    pbkdf2::pbkdf2_hmac::<Sha256>(password, salt, rounds, &mut key);
    key
}

/// Calls `rand::thread_rng` and `RngCore::fill_bytes` on a buffer of `len` bytes. The
/// bytes differ from call to call; only their number is known. The generator gives up
/// only where the operating system has no randomness to seed it with.
#[verifier::external_body]
fn random_bytes(len: usize) -> (bytes: Vec<u8>)
    ensures
        bytes.len() == len,
{
    let mut bytes = vec![0u8; len];
    rand::thread_rng().fill_bytes(&mut bytes);
    bytes
}

/// The digest under which `password` is stored with `salt`.
pub open spec fn digest_of(password: Seq<char>, salt: Seq<u8>) -> Seq<u8> {
    derived_key(encode_utf8(password), salt, ROUNDS, DIGEST_LEN as nat)
}

/// Whether `digest` and `salt` are a stored form of `password`.
pub open spec fn is_credential_of(password: Seq<char>, digest: Seq<u8>, salt: Seq<u8>) -> bool {
    digest == digest_of(password, salt)
}

/// The stored form of a password.
#[derive(Debug)]
pub struct Credential {
    /// The digest derived from the password and the salt.
    pub digest: Vec<u8>,
    /// The salt, drawn afresh for this credential.
    pub salt: Vec<u8>,
}

/// Whether `a` and `b` hold the same bytes. Where the lengths agree, every pair of
/// bytes is looked at, wherever the first difference lies.
pub fn same_bytes(a: &[u8], b: &[u8]) -> (same: bool)
    ensures
        same == (a@ == b@),
{
    if a.len() != b.len() {
        return false;
    }
    let mut difference: u8 = 0;
    let mut i: usize = 0;
    assert(a@.subrange(0, 0) =~= b@.subrange(0, 0));
    while i < a.len()
        invariant
            i <= a.len(),
            a.len() == b.len(),
            difference == 0 <==> a@.subrange(0, i as int) == b@.subrange(0, i as int),
        decreases a.len() - i,
    {
        let x = a[i];
        let y = b[i];
        let ghost before = difference;
        difference = difference | (x ^ y);
        proof {
            assert(difference == 0 <==> before == 0 && x == y) by (bit_vector)
                requires
                    difference == before | (x ^ y),
            ;
            let next = i + 1;
            if a@.subrange(0, next) == b@.subrange(0, next) {
                assert(a@.subrange(0, i as int) =~= a@.subrange(0, next).subrange(0, i as int));
                assert(b@.subrange(0, i as int) =~= b@.subrange(0, next).subrange(0, i as int));
                assert(a@.subrange(0, next)[i as int] == b@.subrange(0, next)[i as int]);
            }
            if before == 0 && x == y {
                assert(a@.subrange(0, next) =~= a@.subrange(0, i as int).push(x));
                assert(b@.subrange(0, next) =~= b@.subrange(0, i as int).push(y));
            }
        }
        i += 1;
    }
    proof {
        assert(a@.subrange(0, a.len() as int) =~= a@);
        assert(b@.subrange(0, b.len() as int) =~= b@);
    }
    difference == 0
}

/// Draws a fresh salt and derives the digest of `password` with it.
pub fn hash(password: &str) -> (credential: Credential)
    ensures
        credential.salt.len() == SALT_LEN,
        credential.digest.len() == DIGEST_LEN,
        is_credential_of(password@, credential.digest@, credential.salt@),
{
    let salt = random_bytes(SALT_LEN);
    let digest = derive_key(password.as_bytes(), salt.as_slice(), ROUNDS, DIGEST_LEN);
    Credential { digest, salt }
}

/// Whether `password` is the password stored as `digest` with `salt`. Any mismatch, a
/// damaged digest included, gives `false`.
pub fn verify(password: &str, digest: &[u8], salt: &[u8]) -> (accepted: bool)
    ensures
        accepted == is_credential_of(password@, digest@, salt@),
{
    let expected = derive_key(password.as_bytes(), salt, ROUNDS, DIGEST_LEN);
    same_bytes(digest, expected.as_slice())
}

/// A password is accepted against the digest derived from it, whatever the salt; and
/// another password is refused wherever it derives another digest with that salt.
pub proof fn lemma_credential_round_trip(password: Seq<char>, other: Seq<char>, salt: Seq<u8>)
    ensures
        is_credential_of(password, digest_of(password, salt), salt),
        digest_of(other, salt) != digest_of(password, salt) ==> !is_credential_of(
            other,
            digest_of(password, salt),
            salt,
        ),
{
}

} // verus!
