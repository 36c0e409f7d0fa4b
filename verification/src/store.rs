use crate::codec::{constant_time_eq, Digest, Salt};
use crate::error::AuthError;
use vstd::prelude::*;
use vstd::string::StringSliceAdditionalSpecFns;
use vstd::utf8::encode_utf8_decode_utf8;

verus! {

/// One stored credential: whose it is, and what a password offered for it is
/// checked against.
#[derive(Debug)]
pub struct Credential {
    pub identity: String,
    pub salt: Salt,
    pub digest: Digest,
    pub cost: u32,
}

/// A credential as contracts see it.
pub struct Record {
    pub identity: Seq<char>,
    pub salt: Seq<u8>,
    pub digest: Seq<u8>,
    pub cost: u32,
}

impl View for Credential {
    type V = Record;

    open spec fn view(&self) -> Record {
        Record { identity: self.identity@, salt: self.salt@, digest: self.digest@, cost: self.cost }
    }
}

/// Two strings with the same UTF-8 bytes are the same string.
proof fn lemma_same_bytes_same_text(a: Seq<char>, b: Seq<char>)
    requires
        vstd::utf8::encode_utf8(a) == vstd::utf8::encode_utf8(b),
    ensures
        a == b,
{
    encode_utf8_decode_utf8(a);
    encode_utf8_decode_utf8(b);
}

/// Tells whether two identities are the same.
pub fn same_identity(a: &str, b: &str) -> (same: bool)
    ensures
        same == (a@ == b@),
{
    let same = constant_time_eq(a.as_bytes(), b.as_bytes());
    proof {
        if same {
            lemma_same_bytes_same_text(a@, b@);
        }
    }
    same
}

/// The credentials of a service, at most one for each identity.
pub struct CredentialStore {
    records: Vec<Credential>,
}

/// Where in `records` the credential of `identity` stands, if it has one.
spec fn holds_at(records: Seq<Credential>, identity: Seq<char>, i: int) -> bool {
    0 <= i < records.len() && records[i].identity@ == identity
}

/// No identity occurs twice in `records`.
spec fn identities_unique(records: Seq<Credential>) -> bool {
    forall|i: int, j: int|
        0 <= i < j < records.len() ==> (#[trigger] records[i]).identity@ != (
        #[trigger] records[j]).identity@
}

/// The credentials in `records`, each under its identity.
spec fn by_identity(records: Seq<Credential>) -> Map<Seq<char>, Record> {
    Map::new(
        |identity: Seq<char>| exists|i: int| holds_at(records, identity, i),
        |identity: Seq<char>| records[choose|i: int| holds_at(records, identity, i)]@,
    )
}

impl View for CredentialStore {
    type V = Map<Seq<char>, Record>;

    closed spec fn view(&self) -> Map<Seq<char>, Record> {
        by_identity(self.records@)
    }
}

impl CredentialStore {
    #[verifier::type_invariant]
    spec fn well_formed(&self) -> bool {
        identities_unique(self.records@)
    }

    /// A store that holds no credential.
    pub fn new() -> (store: CredentialStore)
        ensures
            store@ == Map::<Seq<char>, Record>::empty(),
    {
        let store = CredentialStore { records: Vec::new() };
        assert(store@ =~= Map::<Seq<char>, Record>::empty());
        store
    }

    /// The number of credentials held.
    pub fn len(&self) -> (n: usize)
        ensures
            n == self@.dom().len(),
            self@.dom().finite(),
    {
        proof {
            use_type_invariant(self);
            lemma_domain_size(self.records@);
        }
        self.records.len()
    }

    /// Stores a credential, unless its identity already has one.
    ///
    /// A refused credential leaves the store as it was: nothing is ever
    /// overwritten.
    pub fn put_credential(&mut self, credential: Credential) -> (stored: Result<(), AuthError>)
        ensures
            old(self)@.dom().contains(credential.identity@) ==> stored == Err::<(), AuthError>(
                AuthError::DuplicateIdentity,
            ) && final(self)@ == old(self)@,
            !old(self)@.dom().contains(credential.identity@) ==> stored == Ok::<(), AuthError>(())
                && final(self)@ == old(self)@.insert(credential.identity@, credential@),
    {
        proof {
            use_type_invariant(&*self);
        }
        if self.get_credential(credential.identity.as_str()).is_some() {
            return Err(AuthError::DuplicateIdentity);
        }
        let ghost before = self.records@;
        let ghost added = credential;
        let mut records: Vec<Credential> = Vec::new();
        std::mem::swap(&mut records, &mut self.records);
        records.push(credential);
        proof {
            lemma_appended(before, added);
        }
        self.records = records;
        Ok(())
    }

    /// Finds the credential stored for an identity.
    pub fn get_credential(&self, identity: &str) -> (found: Option<&Credential>)
        ensures
            match found {
                Some(credential) => self@.dom().contains(identity@) && self@[identity@]
                    == credential@,
                None => !self@.dom().contains(identity@),
            },
    {
        proof {
            use_type_invariant(self);
        }
        let mut i: usize = 0;
        while i < self.records.len()
            invariant
                i <= self.records@.len(),
                identities_unique(self.records@),
                forall|j: int| 0 <= j < i ==> !holds_at(self.records@, identity@, j),
            decreases self.records@.len() - i,
        {
            if same_identity(self.records[i].identity.as_str(), identity) {
                proof {
                    lemma_record_at(self.records@, i as int);
                }
                return Some(&self.records[i]);
            }
            i = i + 1;
        }
        None
    }
}

/// In a sequence without repeated identities, the credential at a position
/// is the one that the sequence holds under that credential's identity.
proof fn lemma_record_at(records: Seq<Credential>, i: int)
    requires
        identities_unique(records),
        0 <= i < records.len(),
    ensures
        by_identity(records).dom().contains(records[i].identity@),
        by_identity(records)[records[i].identity@] == records[i]@,
{
    let identity = records[i].identity@;
    assert(holds_at(records, identity, i));
    let k = choose|k: int| holds_at(records, identity, k);
    assert(k == i) by {
        if k < i {
            assert(records[k].identity@ != records[i].identity@);
        } else if i < k {
            assert(records[i].identity@ != records[k].identity@);
        }
    }
}

/// A sequence without repeated identities holds as many identities as it has
/// credentials.
proof fn lemma_domain_size(records: Seq<Credential>)
    requires
        identities_unique(records),
    ensures
        by_identity(records).dom().finite(),
        by_identity(records).dom().len() == records.len(),
    decreases records.len(),
{
    if records.len() == 0 {
        assert(by_identity(records).dom() =~= Set::<Seq<char>>::empty());
    } else {
        let front = records.drop_last();
        let last = records.last();
        assert(identities_unique(front)) by {
            assert forall|i: int, j: int| 0 <= i < j < front.len() implies (#[trigger] front[i]).identity@
                != (#[trigger] front[j]).identity@ by {
                assert(front[i] == records[i]);
                assert(front[j] == records[j]);
            }
        }
        lemma_domain_size(front);
        assert(!by_identity(front).dom().contains(last.identity@)) by {
            if by_identity(front).dom().contains(last.identity@) {
                let k = choose|k: int| holds_at(front, last.identity@, k);
                assert(front[k] == records[k]);
                assert(records[k].identity@ != records[records.len() - 1].identity@);
            }
        }
        assert(by_identity(records).dom() =~= by_identity(front).dom().insert(last.identity@)) by {
            assert forall|identity: Seq<char>|
                by_identity(records).dom().contains(identity) implies by_identity(front).dom().insert(
                last.identity@,
            ).contains(identity) by {
                let k = choose|k: int| holds_at(records, identity, k);
                if k < front.len() {
                    assert(front[k] == records[k]);
                    assert(holds_at(front, identity, k));
                }
            }
            assert forall|identity: Seq<char>|
                by_identity(front).dom().insert(last.identity@).contains(
                    identity,
                ) implies by_identity(records).dom().contains(identity) by {
                if identity == last.identity@ {
                    assert(holds_at(records, identity, records.len() - 1));
                } else {
                    let k = choose|k: int| holds_at(front, identity, k);
                    assert(front[k] == records[k]);
                    assert(holds_at(records, identity, k));
                }
            }
        }
    }
}

/// Appending a credential whose identity is new keeps identities unique and
/// adds exactly that credential.
proof fn lemma_appended(records: Seq<Credential>, added: Credential)
    requires
        identities_unique(records),
        !by_identity(records).dom().contains(added.identity@),
    ensures
        identities_unique(records.push(added)),
        by_identity(records.push(added)) == by_identity(records).insert(added.identity@, added@),
{
    let grown = records.push(added);
    assert forall|i: int, j: int| 0 <= i < j < grown.len() implies (#[trigger] grown[i]).identity@
        != (#[trigger] grown[j]).identity@ by {
        if j < records.len() {
            assert(grown[i] == records[i]);
            assert(grown[j] == records[j]);
        } else {
            assert(grown[i] == records[i]);
            assert(!holds_at(records, added.identity@, i));
        }
    }
    let target = by_identity(records).insert(added.identity@, added@);
    assert forall|identity: Seq<char>| by_identity(grown).dom().contains(identity)
        <==> target.dom().contains(identity) by {
        if by_identity(grown).dom().contains(identity) {
            let k = choose|k: int| holds_at(grown, identity, k);
            if k < records.len() {
                assert(grown[k] == records[k]);
                assert(holds_at(records, identity, k));
            }
        }
        if target.dom().contains(identity) {
            if identity == added.identity@ {
                assert(holds_at(grown, identity, records.len() as int));
            } else {
                let k = choose|k: int| holds_at(records, identity, k);
                assert(grown[k] == records[k]);
                assert(holds_at(grown, identity, k));
            }
        }
    }
    assert forall|identity: Seq<char>| by_identity(grown).dom().contains(identity) implies by_identity(
        grown,
    )[identity] == target[identity] by {
        let k = choose|k: int| holds_at(grown, identity, k);
        lemma_record_at(grown, k);
        if k < records.len() {
            assert(grown[k] == records[k]);
            lemma_record_at(records, k);
        }
    }
    assert(by_identity(grown) =~= target);
}

} // verus!
