use crate::codec::{
    compute_digest, decode_digest, decode_salt, digest_of, generate_salt, hash_password,
    is_fresh_salt, is_hashable, Digest, Salt, DEFAULT_COST, DIGEST_LEN, SALT_LEN,
};
use crate::error::AuthError;
use crate::store::{Credential, CredentialStore, Record};
use vstd::prelude::*;
use vstd::string::StringSliceAdditionalSpecFns;

verus! {

/// What a login attempt comes to. There is no third outcome.
#[derive(Clone, Copy, Debug, PartialEq, Eq, Structural)]
pub enum Verdict {
    Accepted,
    Rejected,
}

/// What a credential store answered when asked for an identity.
#[derive(Debug)]
pub enum Lookup {
    Found(Credential),
    Missing,
    Unavailable,
}

/// What a credential store answered when handed a new credential.
#[derive(Clone, Copy, Debug, PartialEq, Eq, Structural)]
pub enum PutOutcome {
    Stored,
    Duplicate,
    Unavailable,
}

/// The verdict on a password, given the credential found for the identity
/// it was offered for: accepted when the credential exists and the password
/// hashes, under the stored salt and cost, to the stored digest.
pub open spec fn verdict_for(found: Option<Record>, password: Seq<u8>) -> Verdict {
    match found {
        Some(record) => if digest_of(password, record.salt, record.cost) == Some(record.digest) {
            Verdict::Accepted
        } else {
            Verdict::Rejected
        },
        None => Verdict::Rejected,
    }
}

/// The credential that a store's answer carries, if any.
pub open spec fn found_in(lookup: Lookup) -> Option<Record> {
    match lookup {
        Lookup::Found(credential) => Some(credential@),
        Lookup::Missing => None,
        Lookup::Unavailable => None,
    }
}

/// The credential that a store holds for an identity, if any.
pub open spec fn stored_for(store: Map<Seq<char>, Record>, identity: Seq<char>) -> Option<Record> {
    if store.dom().contains(identity) {
        Some(store[identity])
    } else {
        None
    }
}

/// `record` is what creating a credential for `identity` with `password`
/// stores: a fresh salt, the default cost, and the password's digest under
/// them.
pub open spec fn created_for(record: Record, identity: Seq<char>, password: Seq<u8>) -> bool {
    &&& record.identity == identity
    &&& record.cost == DEFAULT_COST
    &&& is_fresh_salt(record.salt)
    &&& digest_of(password, record.salt, record.cost) == Some(record.digest)
}

/// The byte that fills the decoy salt.
pub const DECOY_SALT_BYTE: u8 = 46;

/// The byte that fills the decoy digest. No digest that bcrypt writes
/// starts with it.
pub const DECOY_DIGEST_BYTE: u8 = 0;

/// The salt that is hashed when there is no stored one to hash under. It is
/// the same on every call.
pub fn decoy_salt() -> (salt: Salt)
    ensures
        salt@ == Seq::new(SALT_LEN as nat, |i: int| DECOY_SALT_BYTE),
{
    let salt = Salt { bytes: [DECOY_SALT_BYTE; 16] };
    assert(salt@ =~= Seq::new(SALT_LEN as nat, |i: int| DECOY_SALT_BYTE));
    salt
}

/// The digest that is compared against when there is no stored one. It is
/// the same on every call.
pub fn decoy_digest() -> (digest: Digest)
    ensures
        digest@ == Seq::new(DIGEST_LEN as nat, |i: int| DECOY_DIGEST_BYTE),
{
    let digest = Digest { bytes: [DECOY_DIGEST_BYTE; 60] };
    assert(digest@ =~= Seq::new(DIGEST_LEN as nat, |i: int| DECOY_DIGEST_BYTE));
    digest
}

/// Judges a password against the credential found for an identity.
///
/// Without a credential the password is still hashed, under a decoy salt,
/// and compared, so that an unknown identity costs what a wrong password
/// costs. A password that cannot be hashed is rejected.
pub fn judge(found: Option<&Credential>, password: &str) -> (verdict: Verdict)
    ensures
        verdict == verdict_for(
            match found {
                Some(credential) => Some(credential@),
                None => None,
            },
            password.spec_bytes(),
        ),
{
    let known = found.is_some();
    let (salt, cost, expected) = match found {
        Some(credential) => (credential.salt, credential.cost, credential.digest),
        None => (decoy_salt(), DEFAULT_COST, decoy_digest()),
    };
    let same = match compute_digest(password, &salt, cost) {
        Ok(candidate) => candidate.same_as(&expected),
        Err(_) => false,
    };
    if known && same {
        Verdict::Accepted
    } else {
        Verdict::Rejected
    }
}

/// Reads a store's answer from the row it returned for an identity.
///
/// A row whose salt or digest does not have its fixed width cannot be
/// checked against, and counts as a store that could not be reached.
pub fn lookup_from_row(identity: &str, salt: &[u8], digest: &[u8], cost: u32) -> (lookup: Lookup)
    ensures
        salt@.len() == SALT_LEN && digest@.len() == DIGEST_LEN ==> found_in(lookup) == Some(
            Record { identity: identity@, salt: salt@, digest: digest@, cost },
        ),
        !(salt@.len() == SALT_LEN && digest@.len() == DIGEST_LEN) ==> lookup is Unavailable,
{
    match (decode_salt(salt), decode_digest(digest)) {
        (Ok(salt), Ok(digest)) => Lookup::Found(
            Credential { identity: identity.to_owned(), salt, digest, cost },
        ),
        _ => Lookup::Unavailable,
    }
}

/// Judges a password against what a credential store answered.
///
/// A store that could not be reached rejects, exactly as a store that has
/// no credential for the identity does.
pub fn verdict_after(lookup: &Lookup, password: &str) -> (verdict: Verdict)
    ensures
        verdict == verdict_for(found_in(*lookup), password.spec_bytes()),
{
    match lookup {
        Lookup::Found(credential) => judge(Some(credential), password),
        Lookup::Missing => judge(None, password),
        Lookup::Unavailable => judge(None, password),
    }
}

/// Builds the credential to store for a new identity from a salt already
/// drawn: hashes the password under that salt at the default cost.
///
/// A password that cannot be hashed gives no credential.
pub fn credential_with_salt(identity: &str, password: &str, salt: Salt) -> (made: Result<
    Credential,
    AuthError,
>)
    ensures
        match made {
            Ok(credential) => is_hashable(password.spec_bytes()) && Some(credential@.digest)
                == digest_of(password.spec_bytes(), salt@, DEFAULT_COST) && credential@.identity
                == identity@ && credential@.salt == salt@ && credential@.cost == DEFAULT_COST,
            Err(e) => e == AuthError::Hashing && !is_hashable(password.spec_bytes()),
        },
{
    match hash_password(password, &salt) {
        Ok(digest) => Ok(
            Credential { identity: identity.to_owned(), salt, digest, cost: DEFAULT_COST },
        ),
        Err(e) => Err(e),
    }
}

/// Builds the credential to store for a new identity: draws a salt and
/// hashes the password under it at the default cost.
///
/// A password that cannot be hashed gives no credential.
pub fn new_credential(identity: &str, password: &str) -> (made: Result<Credential, AuthError>)
    ensures
        match made {
            Ok(credential) => created_for(credential@, identity@, password.spec_bytes()),
            Err(e) => e == AuthError::Hashing && !is_hashable(password.spec_bytes()),
        },
{
    let salt = generate_salt();
    credential_with_salt(identity, password, salt)
}

/// What the caller of a creation is told, given what the store answered.
pub fn creation_result(outcome: PutOutcome) -> (result: Result<(), AuthError>)
    ensures
        result == match outcome {
            PutOutcome::Stored => Ok::<(), AuthError>(()),
            PutOutcome::Duplicate => Err::<(), AuthError>(AuthError::DuplicateIdentity),
            PutOutcome::Unavailable => Err::<(), AuthError>(AuthError::Store),
        },
{
    match outcome {
        PutOutcome::Stored => Ok(()),
        PutOutcome::Duplicate => Err(AuthError::DuplicateIdentity),
        PutOutcome::Unavailable => Err(AuthError::Store),
    }
}

/// How a creation for `identity` with `password` takes a store from `before`
/// to `after`, and with what result: an identity that already has a
/// credential is refused and nothing changes; a password that cannot be
/// hashed is refused and nothing changes; otherwise the identity gets a
/// credential made for that password, and nothing else changes.
pub open spec fn creation_step(
    before: Map<Seq<char>, Record>,
    identity: Seq<char>,
    password: Seq<u8>,
    after: Map<Seq<char>, Record>,
    result: Result<(), AuthError>,
) -> bool {
    if before.dom().contains(identity) {
        result == Err::<(), AuthError>(AuthError::DuplicateIdentity) && after == before
    } else if !is_hashable(password) {
        result == Err::<(), AuthError>(AuthError::Hashing) && after == before
    } else {
        &&& result == Ok::<(), AuthError>(())
        &&& after.dom().contains(identity)
        &&& after == before.insert(identity, after[identity])
        &&& created_for(after[identity], identity, password)
    }
}

/// Creates the credential of a new identity.
///
/// Neither the salt nor the digest is handed back.
pub fn create_credential(store: &mut CredentialStore, identity: &str, password: &str) -> (result:
    Result<(), AuthError>)
    ensures
        creation_step(old(store)@, identity@, password.spec_bytes(), final(store)@, result),
{
    if store.get_credential(identity).is_some() {
        return Err(AuthError::DuplicateIdentity);
    }
    match new_credential(identity, password) {
        Ok(credential) => store.put_credential(credential),
        Err(e) => Err(e),
    }
}

/// Checks a password offered for an identity against the stored credential.
pub fn verify_credential(store: &CredentialStore, identity: &str, password: &str) -> (verdict:
    Verdict)
    ensures
        verdict == verdict_for(stored_for(store@, identity@), password.spec_bytes()),
{
    judge(store.get_credential(identity), password)
}

/// What a caller is told about a login attempt.
///
/// The text depends on the verdict alone, so an unknown identity and a wrong
/// password read the same.
pub fn login_message(verdict: Verdict) -> (text: &'static str)
    ensures
        verdict == Verdict::Accepted ==> text@ == "Successful login."@,
        verdict == Verdict::Rejected ==> text@ == "Invalid login credentials."@,
{
    match verdict {
        Verdict::Accepted => "Successful login.",
        Verdict::Rejected => "Invalid login credentials.",
    }
}

/// What a caller is told once a credential has been created.
pub fn creation_message(identity: &str) -> (text: String)
    ensures
        text@ == "Account created with email: "@ + identity@,
{
    let mut text = String::from_str("Account created with email: ");
    text.append(identity);
    text
}

/// What a caller is told when a creation failed. Only a taken identity is
/// told apart, so that the caller can pick another; every other failure
/// reads the same.
pub fn creation_failure_message(error: AuthError) -> (text: &'static str)
    ensures
        error == AuthError::DuplicateIdentity ==> text@ == "An account with this email already exists."@,
        error != AuthError::DuplicateIdentity ==> text@ == "The account could not be created."@,
{
    match error {
        AuthError::DuplicateIdentity => "An account with this email already exists.",
        _ => "The account could not be created.",
    }
}

/// A password that a credential was just created with is accepted for that
/// identity.
pub proof fn lemma_created_then_accepted(
    before: Map<Seq<char>, Record>,
    identity: Seq<char>,
    password: Seq<u8>,
    after: Map<Seq<char>, Record>,
)
    requires
        creation_step(before, identity, password, after, Ok(())),
    ensures
        verdict_for(stored_for(after, identity), password) == Verdict::Accepted,
{
}

/// A password whose digest under the stored salt and cost is not the stored
/// one is rejected.
pub proof fn lemma_other_digest_rejected(
    store: Map<Seq<char>, Record>,
    identity: Seq<char>,
    password: Seq<u8>,
    offered: Seq<u8>,
)
    requires
        store.dom().contains(identity),
        digest_of(password, store[identity].salt, store[identity].cost) == Some(
            store[identity].digest,
        ),
        digest_of(offered, store[identity].salt, store[identity].cost) != digest_of(
            password,
            store[identity].salt,
            store[identity].cost,
        ),
    ensures
        verdict_for(stored_for(store, identity), offered) == Verdict::Rejected,
{
}

/// Any password is rejected for an identity that has no credential, and
/// that rejection is the very verdict that a wrong password gets for an
/// identity that has one.
pub proof fn lemma_unknown_identity_rejected(
    store: Map<Seq<char>, Record>,
    identity: Seq<char>,
    password: Seq<u8>,
)
    requires
        !store.dom().contains(identity),
    ensures
        verdict_for(stored_for(store, identity), password) == Verdict::Rejected,
        forall|other: Map<Seq<char>, Record>, known: Seq<char>, offered: Seq<u8>|
            verdict_for(stored_for(other, known), offered) != Verdict::Accepted ==> verdict_for(
                stored_for(other, known),
                offered,
            ) == verdict_for(stored_for(store, identity), password),
{
}

/// Of two creations for one identity that had no credential, the first, if
/// its password can be hashed, succeeds, and the second is refused as a
/// duplicate, leaving the first one's credential in place. Creation takes
/// the store exclusively, so of any two creations one is the first.
pub proof fn lemma_second_creation_refused(
    before: Map<Seq<char>, Record>,
    identity: Seq<char>,
    first_password: Seq<u8>,
    between: Map<Seq<char>, Record>,
    first: Result<(), AuthError>,
    second_password: Seq<u8>,
    after: Map<Seq<char>, Record>,
    second: Result<(), AuthError>,
)
    requires
        !before.dom().contains(identity),
        is_hashable(first_password),
        creation_step(before, identity, first_password, between, first),
        creation_step(between, identity, second_password, after, second),
    ensures
        first == Ok::<(), AuthError>(()),
        second == Err::<(), AuthError>(AuthError::DuplicateIdentity),
        after == between,
        created_for(after[identity], identity, first_password),
{
}

/// A password that cannot be hashed is rejected, whatever is stored.
pub proof fn lemma_unhashable_rejected(found: Option<Record>, password: Seq<u8>)
    requires
        !is_hashable(password),
    ensures
        verdict_for(found, password) == Verdict::Rejected,
{
}

} // verus!
