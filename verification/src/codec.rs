use crate::error::AuthError;
use crate::primitives::{
    bcrypt_hash_with_salt, bcrypt_two_b, random_byte_in, thread_rng, BCRYPT_MAX_COST,
    BCRYPT_MIN_COST,
};
use vstd::prelude::*;
use vstd::string::StringSliceAdditionalSpecFns;

verus! {

/// Width of a salt in bytes.
pub const SALT_LEN: usize = 16;

/// Width of a digest in bytes.
pub const DIGEST_LEN: usize = 60;

/// Cost at which new credentials are hashed.
pub const DEFAULT_COST: u32 = 8;

/// Lowest byte a fresh salt may hold.
pub const SALT_BYTE_MIN: u8 = 33;

/// First byte above those a fresh salt may hold.
pub const SALT_BYTE_END: u8 = 126;

/// The per-credential value that is hashed together with the password.
#[derive(Clone, Copy, Debug)]
pub struct Salt {
    pub bytes: [u8; 16],
}

/// What is stored in place of a password.
#[derive(Clone, Copy, Debug)]
pub struct Digest {
    pub bytes: [u8; 60],
}

impl View for Salt {
    type V = Seq<u8>;

    open spec fn view(&self) -> Seq<u8> {
        self.bytes@
    }
}

impl View for Digest {
    type V = Seq<u8>;

    open spec fn view(&self) -> Seq<u8> {
        self.bytes@
    }
}

/// Every byte of `salt` is one that salt generation may draw.
pub open spec fn is_fresh_salt(salt: Seq<u8>) -> bool {
    &&& salt.len() == SALT_LEN
    &&& forall|i: int| 0 <= i < salt.len() ==> SALT_BYTE_MIN <= #[trigger] salt[i] < SALT_BYTE_END
}

/// Longest password, in bytes, that can be hashed. bcrypt reads a password
/// and its terminating NUL in at most 72 bytes; a longer password would be
/// cut short, and two passwords that differ only past the cut would share a
/// digest.
pub const PASSWORD_MAX_LEN: usize = 71;

/// The password can be hashed whole: it fits, and it holds no NUL byte, which
/// would read as its end.
pub open spec fn is_hashable(password: Seq<u8>) -> bool {
    &&& password.len() <= PASSWORD_MAX_LEN
    &&& forall|i: int| 0 <= i < password.len() ==> #[trigger] password[i] != 0u8
}

/// The digest of a password's bytes under a salt and a cost, where the
/// password can be hashed and the cost is one that bcrypt accepts.
pub open spec fn digest_of(password: Seq<u8>, salt: Seq<u8>, cost: u32) -> Option<Seq<u8>> {
    if is_hashable(password) && BCRYPT_MIN_COST <= cost <= BCRYPT_MAX_COST {
        Some(bcrypt_two_b(password, cost, salt))
    } else {
        None
    }
}

/// Tells whether a password can be hashed whole.
///
/// Every byte is looked at, wherever a NUL stands.
pub fn hashable(password: &[u8]) -> (ok: bool)
    ensures
        ok == is_hashable(password@),
{
    if password.len() > PASSWORD_MAX_LEN {
        return false;
    }
    let mut clean = true;
    let mut i: usize = 0;
    while i < password.len()
        invariant
            i <= password@.len(),
            clean == (forall|j: int| 0 <= j < i ==> #[trigger] password@[j] != 0u8),
        decreases password@.len() - i,
    {
        if password[i] == 0 {
            clean = false;
        }
        i = i + 1;
    }
    clean
}

/// Draws a salt for a new credential from the thread's random generator.
///
/// Each byte is drawn on its own and is a printable, non-blank character.
pub fn generate_salt() -> (salt: Salt)
    ensures
        is_fresh_salt(salt@),
{
    let mut rng = thread_rng();
    let mut bytes: [u8; 16] = [SALT_BYTE_MIN; 16];
    let mut i: usize = 0;
    while i < SALT_LEN
        invariant
            i <= SALT_LEN,
            bytes@.len() == SALT_LEN,
            forall|j: int|
                0 <= j < bytes@.len() ==> SALT_BYTE_MIN <= #[trigger] bytes@[j] < SALT_BYTE_END,
        decreases SALT_LEN - i,
    {
        let byte: u8 = random_byte_in(&mut rng, SALT_BYTE_MIN, SALT_BYTE_END);
        bytes[i] = byte;
        i = i + 1;
    }
    Salt { bytes }
}

/// Hashes a password under a salt at the given cost.
///
/// The same password, salt and cost always give the same digest. Hashing
/// fails on a password that is too long or holds a NUL byte, and on a cost
/// that bcrypt does not accept; such a password is never cut or altered to
/// make it fit.
pub fn compute_digest(password: &str, salt: &Salt, cost: u32) -> (hashed: Result<Digest, AuthError>)
    ensures
        match hashed {
            Ok(digest) => digest_of(password.spec_bytes(), salt@, cost) == Some(digest@),
            Err(e) => e == AuthError::Hashing && digest_of(password.spec_bytes(), salt@, cost)
                is None,
        },
{
    let bytes = password.as_bytes();
    if !hashable(bytes) {
        return Err(AuthError::Hashing);
    }
    match bcrypt_hash_with_salt(bytes, cost, &salt.bytes) {
        Ok(bytes) => Ok(Digest { bytes }),
        Err(_) => Err(AuthError::Hashing),
    }
}

/// Hashes a password under a salt at the cost used for new credentials.
///
/// Only the password can make this fail.
pub fn hash_password(password: &str, salt: &Salt) -> (hashed: Result<Digest, AuthError>)
    ensures
        match hashed {
            Ok(digest) => digest_of(password.spec_bytes(), salt@, DEFAULT_COST) == Some(digest@),
            Err(e) => e == AuthError::Hashing && !is_hashable(password.spec_bytes()),
        },
{
    compute_digest(password, salt, DEFAULT_COST)
}

/// Compares two byte strings without stopping at the first difference.
///
/// Strings of different lengths are unequal. For strings of one length every
/// position is visited, whatever the bytes are.
pub fn constant_time_eq(a: &[u8], b: &[u8]) -> (same: bool)
    ensures
        same == (a@ == b@),
{
    if a.len() != b.len() {
        return false;
    }
    let mut diff: u8 = 0;
    let mut i: usize = 0;
    while i < a.len()
        invariant
            a@.len() == b@.len(),
            i <= a@.len(),
            (diff == 0) == (a@.take(i as int) =~= b@.take(i as int)),
        decreases a@.len() - i,
    {
        let x: u8 = a[i];
        let y: u8 = b[i];
        let ghost before: u8 = diff;
        diff = diff | (x ^ y);
        proof {
            assert(((before | (x ^ y)) == 0) == (before == 0 && x == y)) by (bit_vector);
            let n: int = i as int;
            assert(a@.take(n + 1).drop_last() == a@.take(n));
            assert(b@.take(n + 1).drop_last() == b@.take(n));
            assert(a@.take(n + 1).last() == x);
            assert(b@.take(n + 1).last() == y);
            if a@.take(n) == b@.take(n) && x == y {
                assert(a@.take(n + 1) == b@.take(n + 1));
            }
        }
        i = i + 1;
    }
    proof {
        assert(a@.take(a@.len() as int) == a@);
        assert(b@.take(b@.len() as int) == b@);
    }
    diff == 0
}

/// The stored form of a digest: its bytes, unchanged.
pub open spec fn encoded(digest: Seq<u8>) -> Seq<u8> {
    digest
}

/// The digest that stored bytes stand for, if they have a digest's width.
pub open spec fn decoded(bytes: Seq<u8>) -> Option<Seq<u8>> {
    if bytes.len() == DIGEST_LEN {
        Some(bytes)
    } else {
        None
    }
}

/// Writes a digest in the fixed-width form in which it is stored.
pub fn encode_digest(digest: &Digest) -> (bytes: Vec<u8>)
    ensures
        bytes@ == encoded(digest@),
{
    let mut bytes: Vec<u8> = Vec::with_capacity(DIGEST_LEN);
    let mut i: usize = 0;
    while i < DIGEST_LEN
        invariant
            i <= DIGEST_LEN,
            digest.bytes@.len() == DIGEST_LEN,
            bytes@ == digest.bytes@.take(i as int),
        decreases DIGEST_LEN - i,
    {
        bytes.push(digest.bytes[i]);
        i = i + 1;
    }
    assert(digest.bytes@.take(DIGEST_LEN as int) == digest.bytes@);
    bytes
}

/// Reads a digest back from its stored form.
///
/// Bytes of any other width than a digest's are refused.
pub fn decode_digest(bytes: &[u8]) -> (read: Result<Digest, AuthError>)
    ensures
        match read {
            Ok(digest) => decoded(bytes@) == Some(digest@),
            Err(e) => e == AuthError::MalformedCredential && decoded(bytes@) is None,
        },
{
    if bytes.len() != DIGEST_LEN {
        return Err(AuthError::MalformedCredential);
    }
    let mut out: [u8; 60] = [0u8; 60];
    let mut i: usize = 0;
    while i < DIGEST_LEN
        invariant
            i <= DIGEST_LEN,
            bytes@.len() == DIGEST_LEN,
            out@.len() == DIGEST_LEN,
            forall|j: int| 0 <= j < i ==> out@[j] == bytes@[j],
        decreases DIGEST_LEN - i,
    {
        out[i] = bytes[i];
        i = i + 1;
    }
    assert(out@ == bytes@);
    Ok(Digest { bytes: out })
}

/// Reads a salt back from its stored form.
///
/// Bytes of any other width than a salt's are refused.
pub fn decode_salt(bytes: &[u8]) -> (read: Result<Salt, AuthError>)
    ensures
        match read {
            Ok(salt) => bytes@.len() == SALT_LEN && salt@ == bytes@,
            Err(e) => e == AuthError::MalformedCredential && bytes@.len() != SALT_LEN,
        },
{
    if bytes.len() != SALT_LEN {
        return Err(AuthError::MalformedCredential);
    }
    let mut out: [u8; 16] = [0u8; 16];
    let mut i: usize = 0;
    while i < SALT_LEN
        invariant
            i <= SALT_LEN,
            bytes@.len() == SALT_LEN,
            out@.len() == SALT_LEN,
            forall|j: int| 0 <= j < i ==> out@[j] == bytes@[j],
        decreases SALT_LEN - i,
    {
        out[i] = bytes[i];
        i = i + 1;
    }
    assert(out@ == bytes@);
    Ok(Salt { bytes: out })
}

impl Digest {
    /// Tells whether two digests are the same, visiting all their bytes.
    pub fn same_as(&self, other: &Digest) -> (same: bool)
        ensures
            same == (self@ == other@),
    {
        constant_time_eq(self.bytes.as_slice(), other.bytes.as_slice())
    }
}

/// Hashing is a function of its inputs: two digests of the same password
/// under the same salt and cost are the same digest.
pub proof fn lemma_digest_deterministic(
    password: Seq<u8>,
    salt: Seq<u8>,
    cost: u32,
    first: Digest,
    second: Digest,
)
    requires
        digest_of(password, salt, cost) == Some(first@),
        digest_of(password, salt, cost) == Some(second@),
    ensures
        first == second,
{
    assert(first.bytes@ == second.bytes@);
    assert(first.bytes =~= second.bytes);
}

/// Decoding what was encoded gives the digest back.
pub proof fn lemma_decode_encode(digest: Digest)
    ensures
        decoded(encoded(digest@)) == Some(digest@),
{
}

/// Bytes that decode to a digest are that digest's encoding.
pub proof fn lemma_encode_decode(bytes: Seq<u8>)
    requires
        decoded(bytes) is Some,
    ensures
        encoded(decoded(bytes)->0) == bytes,
{
}

} // verus!
