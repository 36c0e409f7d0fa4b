use user_auth::codec::{compute_digest, Salt, DEFAULT_COST};
use user_auth::error::AuthError;
use user_auth::service::{
    create_credential, creation_failure_message, creation_message, creation_result,
    credential_with_salt, decoy_digest, decoy_salt, judge, login_message, lookup_from_row,
    new_credential, verdict_after, verify_credential, Lookup, PutOutcome, Verdict,
};
use user_auth::store::{Credential, CredentialStore};

fn stored(identity: &str, password: &str, cost: u32) -> Credential {
    let salt = Salt { bytes: *b"0123456789abcdef" };
    let digest = compute_digest(password, &salt, cost).unwrap();
    Credential { identity: identity.to_string(), salt, digest, cost }
}

#[test]
fn alice_and_bob() {
    let mut store = CredentialStore::new();
    assert_eq!(create_credential(&mut store, "alice@example.com", "Tr0ub4dor&3"), Ok(()));
    assert_eq!(
        verify_credential(&store, "alice@example.com", "Tr0ub4dor&3"),
        Verdict::Accepted
    );
    assert_eq!(verify_credential(&store, "alice@example.com", "wrong"), Verdict::Rejected);
    assert_eq!(verify_credential(&store, "bob@example.com", "anything"), Verdict::Rejected);
}

#[test]
fn created_credential_is_accepted() {
    let mut store = CredentialStore::new();
    assert_eq!(create_credential(&mut store, "carol", "correct horse"), Ok(()));
    assert_eq!(verify_credential(&store, "carol", "correct horse"), Verdict::Accepted);
    let kept = store.get_credential("carol").unwrap();
    assert_eq!(kept.identity, "carol");
    assert_eq!(kept.cost, 8);
    assert_eq!(&kept.digest.bytes[..7], b"$2b$08$");
    assert!(kept.salt.bytes.iter().all(|byte| (33..126).contains(byte)));
    let again = compute_digest("correct horse", &kept.salt, kept.cost).unwrap();
    assert_eq!(again.bytes, kept.digest.bytes);
}

#[test]
fn wrong_password_and_unknown_identity_read_the_same() {
    let mut store = CredentialStore::new();
    assert_eq!(create_credential(&mut store, "dave", "hunter2"), Ok(()));
    let wrong = verify_credential(&store, "dave", "hunter3");
    let unknown = verify_credential(&store, "erin", "hunter2");
    assert_eq!(wrong, Verdict::Rejected);
    assert_eq!(unknown, Verdict::Rejected);
    assert_eq!(wrong, unknown);
    assert_eq!(login_message(wrong), login_message(unknown));
    assert_eq!(verify_credential(&store, "dave", ""), Verdict::Rejected);
    assert_eq!(verify_credential(&store, "dave", "Hunter2"), Verdict::Rejected);
}

#[test]
fn second_creation_is_a_duplicate_and_changes_nothing() {
    let mut store = CredentialStore::new();
    assert_eq!(create_credential(&mut store, "frank", "first"), Ok(()));
    let salt = store.get_credential("frank").unwrap().salt.bytes;
    let digest = store.get_credential("frank").unwrap().digest.bytes;
    assert_eq!(
        create_credential(&mut store, "frank", "second"),
        Err(AuthError::DuplicateIdentity)
    );
    assert_eq!(create_credential(&mut store, "frank", "first"), Err(AuthError::DuplicateIdentity));
    assert_eq!(store.len(), 1);
    assert_eq!(store.get_credential("frank").unwrap().salt.bytes, salt);
    assert_eq!(store.get_credential("frank").unwrap().digest.bytes, digest);
    assert_eq!(verify_credential(&store, "frank", "first"), Verdict::Accepted);
    assert_eq!(verify_credential(&store, "frank", "second"), Verdict::Rejected);
}

#[test]
fn two_identities_with_one_password_get_their_own_salts() {
    let mut store = CredentialStore::new();
    assert_eq!(create_credential(&mut store, "gina", "shared"), Ok(()));
    assert_eq!(create_credential(&mut store, "hank", "shared"), Ok(()));
    let gina = store.get_credential("gina").unwrap();
    let hank = store.get_credential("hank").unwrap();
    assert_ne!(gina.salt.bytes, hank.salt.bytes);
    assert_ne!(gina.digest.bytes, hank.digest.bytes);
}

#[test]
fn new_credential_hashes_under_a_fresh_salt() {
    let made = new_credential("ivan@example.com", "pa55word").unwrap();
    assert_eq!(made.identity, "ivan@example.com");
    assert_eq!(made.cost, DEFAULT_COST);
    assert!(made.salt.bytes.iter().all(|byte| (33..126).contains(byte)));
    let again = compute_digest("pa55word", &made.salt, 8).unwrap();
    assert_eq!(again.bytes, made.digest.bytes);
    assert_eq!(judge(Some(&made), "pa55word"), Verdict::Accepted);
}

#[test]
fn judge_reads_the_stored_cost() {
    let low = stored("judy", "secret", 4);
    let high = stored("judy", "secret", 6);
    assert_ne!(low.digest.bytes, high.digest.bytes);
    assert_eq!(judge(Some(&low), "secret"), Verdict::Accepted);
    assert_eq!(judge(Some(&high), "secret"), Verdict::Accepted);
    let mixed = Credential { cost: 6, ..stored("judy", "secret", 4) };
    assert_eq!(judge(Some(&mixed), "secret"), Verdict::Rejected);
}

#[test]
fn judge_rejects_without_a_credential() {
    assert_eq!(judge(None, "anything"), Verdict::Rejected);
    assert_eq!(judge(None, ""), Verdict::Rejected);
}

#[test]
fn judge_rejects_when_hashing_fails() {
    let broken = Credential { cost: 99, ..stored("kate", "secret", 4) };
    assert_eq!(judge(Some(&broken), "secret"), Verdict::Rejected);
}

#[test]
fn judge_rejects_the_decoy_itself() {
    let digest = compute_digest("anything", &decoy_salt(), DEFAULT_COST).unwrap();
    assert_ne!(digest.bytes, decoy_digest().bytes);
    assert_eq!(judge(None, "anything"), Verdict::Rejected);
}

#[test]
fn verdict_after_each_store_answer() {
    let found = Lookup::Found(stored("liam", "secret", 4));
    assert_eq!(verdict_after(&found, "secret"), Verdict::Accepted);
    assert_eq!(verdict_after(&found, "Secret"), Verdict::Rejected);
    assert_eq!(verdict_after(&Lookup::Missing, "secret"), Verdict::Rejected);
    assert_eq!(verdict_after(&Lookup::Unavailable, "secret"), Verdict::Rejected);
}

#[test]
fn lookup_from_row_reads_a_well_formed_row() {
    let kept = stored("mona", "secret", 5);
    let lookup = lookup_from_row("mona", &kept.salt.bytes, &kept.digest.bytes, 5);
    match &lookup {
        Lookup::Found(credential) => {
            assert_eq!(credential.identity, "mona");
            assert_eq!(credential.salt.bytes, kept.salt.bytes);
            assert_eq!(credential.digest.bytes, kept.digest.bytes);
            assert_eq!(credential.cost, 5);
        }
        _ => panic!("a well-formed row was not read"),
    }
    assert_eq!(verdict_after(&lookup, "secret"), Verdict::Accepted);
}

#[test]
fn lookup_from_row_treats_a_malformed_row_as_unavailable() {
    let kept = stored("nora", "secret", 4);
    let short_digest = lookup_from_row("nora", &kept.salt.bytes, &kept.digest.bytes[..59], 4);
    assert!(matches!(short_digest, Lookup::Unavailable));
    assert_eq!(verdict_after(&short_digest, "secret"), Verdict::Rejected);
    let long_salt = lookup_from_row("nora", &[1u8; 17], &kept.digest.bytes, 4);
    assert!(matches!(long_salt, Lookup::Unavailable));
    let both = lookup_from_row("nora", &[], &[], 4);
    assert!(matches!(both, Lookup::Unavailable));
}

#[test]
fn creation_result_of_each_store_answer() {
    assert_eq!(creation_result(PutOutcome::Stored), Ok(()));
    assert_eq!(creation_result(PutOutcome::Duplicate), Err(AuthError::DuplicateIdentity));
    assert_eq!(creation_result(PutOutcome::Unavailable), Err(AuthError::Store));
}

#[test]
fn messages() {
    assert_eq!(login_message(Verdict::Accepted), "Successful login.");
    assert_eq!(login_message(Verdict::Rejected), "Invalid login credentials.");
    assert_eq!(
        creation_message("alice@example.com"),
        "Account created with email: alice@example.com"
    );
    assert_eq!(creation_message(""), "Account created with email: ");
    assert_eq!(
        creation_failure_message(AuthError::DuplicateIdentity),
        "An account with this email already exists."
    );
    for error in [AuthError::Hashing, AuthError::MalformedCredential, AuthError::Store] {
        assert_eq!(creation_failure_message(error), "The account could not be created.");
    }
}

#[test]
fn decoys_are_fixed() {
    assert_eq!(decoy_salt().bytes, [46u8; 16]);
    assert_eq!(decoy_digest().bytes, [0u8; 60]);
    assert_eq!(decoy_salt().bytes, decoy_salt().bytes);
}

#[test]
fn credential_with_salt_uses_the_salt_it_is_given() {
    let salt = Salt {
        bytes: [
            0x71, 0x5b, 0x96, 0xca, 0xed, 0x2a, 0xc9, 0x2c, 0x35, 0x4e, 0xd1, 0x6c, 0x1e, 0x19,
            0xe3, 0x8a,
        ],
    };
    let made = credential_with_salt("oscar", "abcdefghijklmnopqrstuvwxyz", salt).unwrap();
    assert_eq!(made.identity, "oscar");
    assert_eq!(made.salt.bytes, salt.bytes);
    assert_eq!(made.cost, 8);
    assert_eq!(
        &made.digest.bytes[..],
        "$2b$08$aTsUwsyowQuzRrDqFflhgekJ8d9/7Z3GV3UcgvzQW3J5zMyrTvlz.".as_bytes()
    );
    let other = credential_with_salt("oscar", "abcdefghijklmnopqrstuvwxyz", decoy_salt()).unwrap();
    assert_eq!(other.salt.bytes, [46u8; 16]);
    assert_ne!(other.digest.bytes, made.digest.bytes);
}

#[test]
fn credential_with_salt_refuses_an_unhashable_password() {
    let salt = Salt { bytes: *b"0123456789abcdef" };
    assert_eq!(
        credential_with_salt("pat", &"x".repeat(72), salt).unwrap_err(),
        AuthError::Hashing
    );
    assert_eq!(credential_with_salt("pat", "a\0b", salt).unwrap_err(), AuthError::Hashing);
    assert!(credential_with_salt("pat", &"x".repeat(71), salt).is_ok());
}

#[test]
fn new_credential_refuses_an_unhashable_password() {
    assert_eq!(new_credential("quin", &"x".repeat(100)).unwrap_err(), AuthError::Hashing);
    assert_eq!(new_credential("quin", "\0").unwrap_err(), AuthError::Hashing);
}

#[test]
fn creation_with_an_unhashable_password_stores_nothing() {
    let mut store = CredentialStore::new();
    assert_eq!(
        create_credential(&mut store, "rose", &"x".repeat(72)),
        Err(AuthError::Hashing)
    );
    assert_eq!(create_credential(&mut store, "rose", "nul\0inside"), Err(AuthError::Hashing));
    assert_eq!(store.len(), 0);
    assert!(store.get_credential("rose").is_none());
    assert_eq!(create_credential(&mut store, "rose", "fine"), Ok(()));
    assert_eq!(store.len(), 1);
    assert_eq!(
        create_credential(&mut store, "rose", &"x".repeat(72)),
        Err(AuthError::DuplicateIdentity)
    );
}

#[test]
fn oversized_password_is_rejected_even_when_its_head_is_right() {
    let mut store = CredentialStore::new();
    let password = "x".repeat(71);
    assert_eq!(create_credential(&mut store, "sam", &password), Ok(()));
    assert_eq!(verify_credential(&store, "sam", &password), Verdict::Accepted);
    assert_eq!(verify_credential(&store, "sam", &format!("{}y", password)), Verdict::Rejected);
    assert_eq!(verify_credential(&store, "sam", &format!("{}\0", password)), Verdict::Rejected);
    assert_eq!(verify_credential(&store, "sam", &"x".repeat(70)), Verdict::Rejected);
    assert_eq!(judge(None, &"x".repeat(500)), Verdict::Rejected);
}
