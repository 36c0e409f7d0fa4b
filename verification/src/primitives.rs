use rand::Rng;
use vstd::prelude::*;

verus! {

/// The error that `bcrypt` reports. Nothing in this crate looks inside it.
#[verifier::external_type_specification]
#[verifier::external_body]
pub struct ExBcryptError(bcrypt::BcryptError);

/// The handle to the calling thread's random generator, as `rand` hands it
/// out. It is only ever passed back to `rand`.
#[verifier::external_type_specification]
#[verifier::external_body]
pub struct ExThreadRng(rand::rngs::ThreadRng);

/// The sixty bytes that bcrypt derives, in its `$2b$` text form, from the
/// bytes of a password, a cost and a salt.
///
/// Meaningful for costs that bcrypt accepts, which are those from
/// `BCRYPT_MIN_COST` to `BCRYPT_MAX_COST`.
pub uninterp spec fn bcrypt_two_b(password: Seq<u8>, cost: u32, salt: Seq<u8>) -> Seq<u8>;

/// Lowest cost that bcrypt accepts.
pub const BCRYPT_MIN_COST: u32 = 4;

/// Highest cost that bcrypt accepts.
pub const BCRYPT_MAX_COST: u32 = 31;

/// Calls `bcrypt::hash_with_salt_bytes`.
///
/// Trusted, not proved: the call fails exactly when the cost lies outside
/// the range that bcrypt accepts, whatever the password and the salt are;
/// when it succeeds, the bytes it returns depend on the password's bytes, the
/// cost and the salt alone.
#[verifier::external_body]
pub(crate) fn bcrypt_hash_with_salt(password: &[u8], cost: u32, salt: &[u8; 16]) -> (hashed:
    Result<[u8; 60], bcrypt::BcryptError>)
    ensures
        hashed is Ok <==> BCRYPT_MIN_COST <= cost <= BCRYPT_MAX_COST,
        hashed matches Ok(bytes) ==> bytes@ == bcrypt_two_b(password@, cost, salt@),
{
    bcrypt::hash_with_salt_bytes(password, cost, *salt)
}

/// Calls `rand::rng`, which hands out the calling thread's generator.
///
/// Nothing is claimed of the handle. The generator seeds itself from the
/// operating system on a thread's first call.
#[verifier::external_body]
pub(crate) fn thread_rng() -> rand::rngs::ThreadRng {
    rand::rng()
}

/// Calls `Rng::random_range` on a half-open range of bytes.
///
/// Trusted, not proved: the byte drawn lies in the range. Which byte it is
/// depends on the generator's state, so two calls may differ.
#[verifier::external_body]
pub(crate) fn random_byte_in(rng: &mut rand::rngs::ThreadRng, low: u8, high: u8) -> (byte: u8)
    requires
        low < high,
    ensures
        low <= byte < high,
{
    rng.random_range(low..high)
}

} // verus!
