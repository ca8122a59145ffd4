use vstd::prelude::*;

use crate::entry::{
    hash_sha256, spec_hash, Credential, CredentialData, encodes_secret, read_outcome,
};
use crate::error::Error;

verus! {

/// One entry's bucket: the hashed entry name and the credentials stored
/// under it, at most one per hashed username.
#[derive(Clone, Debug, PartialEq, Eq)]
pub struct Bucket {
    pub entry_hash: String,
    pub credentials: Vec<Credential>,
}

/// A bucket is never empty and holds at most one credential per username
/// hash.
pub open spec fn bucket_wf(b: Bucket) -> bool {
    &&& b.credentials@.len() > 0
    &&& forall|i: int, j: int|
        0 <= i < j < b.credentials@.len() ==> b.credentials@[i].username@
            != b.credentials@[j].username@
}

/// The in-memory vault: hashed entry names, each with its bucket of
/// credentials. The caller loads it whole, mutates it, and writes it whole.
#[derive(Clone, Debug, PartialEq, Eq)]
pub struct CredentialStore {
    buckets: Vec<Bucket>,
}

impl View for CredentialStore {
    type V = Seq<Bucket>;

    closed spec fn view(&self) -> Seq<Bucket> {
        self.buckets@
    }
}

/// Find the position of the credential carrying this username hash.
fn find_cred_index(b: &Bucket, username_hash: &String) -> (r: Option<usize>)
    ensures
        r matches Some(j) ==> j < b.credentials@.len() && b.credentials@[j as int].username@
            == username_hash@,
        r is None ==> forall|k: int|
            0 <= k < b.credentials@.len() ==> b.credentials@[k].username@ != username_hash@,
{
    let mut j: usize = 0;
    while j < b.credentials.len()
        invariant
            j <= b.credentials@.len(),
            forall|k: int| 0 <= k < j ==> b.credentials@[k].username@ != username_hash@,
        decreases b.credentials@.len() - j,
    {
        if b.credentials[j].username == *username_hash {
            return Some(j);
        }
        j += 1;
    }
    None
}

impl CredentialStore {
    /// Entry hashes are unique and every bucket is well formed.
    pub open spec fn wf(self) -> bool {
        &&& forall|i: int, j: int|
            0 <= i < j < self@.len() ==> self@[i].entry_hash@ != self@[j].entry_hash@
        &&& forall|i: int| 0 <= i < self@.len() ==> bucket_wf(#[trigger] self@[i])
    }

    /// Some bucket is keyed by this entry hash.
    pub open spec fn has_entry(self, eh: Seq<char>) -> bool {
        exists|i: int| 0 <= i < self@.len() && (#[trigger] self@[i]).entry_hash@ == eh
    }

    /// The credential `c` is stored under entry hash `eh` with username hash
    /// `uh`.
    pub open spec fn contains_cred(self, eh: Seq<char>, uh: Seq<char>, c: CredentialData) -> bool {
        exists|i: int, j: int|
            {
                &&& 0 <= i < self@.len()
                &&& (#[trigger] self@[i]).entry_hash@ == eh
                &&& 0 <= j < self@[i].credentials@.len()
                &&& (#[trigger] self@[i].credentials@[j]).username@ == uh
                &&& self@[i].credentials@[j]@ == c
            }
    }

    /// An empty store: no entries, no credentials.
    pub fn new() -> (s: CredentialStore)
        ensures
            s.wf(),
            s@.len() == 0,
            forall|eh: Seq<char>| !s.has_entry(eh),
            forall|eh: Seq<char>, uh: Seq<char>, c: CredentialData| !s.contains_cred(eh, uh, c),
    {
        CredentialStore { buckets: Vec::new() }
    }

    /// The buckets, for the caller that persists the whole store.
    pub fn buckets(&self) -> (r: &Vec<Bucket>)
        ensures
            r@ == self@,
    {
        &self.buckets
    }

    /// Find the position of the bucket keyed by this entry hash.
    fn find_bucket_index(&self, entry_hash: &String) -> (r: Option<usize>)
        ensures
            r matches Some(i) ==> i < self@.len() && self@[i as int].entry_hash@ == entry_hash@,
            r is None ==> forall|k: int|
                0 <= k < self@.len() ==> (#[trigger] self@[k]).entry_hash@ != entry_hash@,
    {
        let mut i: usize = 0;
        while i < self.buckets.len()
            invariant
                i <= self@.len(),
                forall|k: int| 0 <= k < i ==> (#[trigger] self@[k]).entry_hash@ != entry_hash@,
            decreases self@.len() - i,
        {
            if self.buckets[i].entry_hash == *entry_hash {
                return Some(i);
            }
            i += 1;
        }
        None
    }

    /// Merge a credential under an already-hashed entry name: replace the
    /// record with the same username hash in place, or append; a new entry
    /// gets a new bucket.
    pub fn upsert_hashed(&mut self, entry_hash: String, new_cred: Credential)
        requires
            old(self).wf(),
        ensures
            final(self).wf(),
            final(self).contains_cred(entry_hash@, new_cred.username@, new_cred@),
            forall|eh: Seq<char>, uh: Seq<char>, c: CredentialData|
                !(eh == entry_hash@ && uh == new_cred.username@) ==> (final(self).contains_cred(
                    eh,
                    uh,
                    c,
                ) <==> old(self).contains_cred(eh, uh, c)),
            forall|eh: Seq<char>|
                final(self).has_entry(eh) <==> (old(self).has_entry(eh) || eh == entry_hash@),
    {
        let ghost old_self = *self;
        match self.find_bucket_index(&entry_hash) {
            Some(i) => {
                let mut b = self.buckets.remove(i);
                match find_cred_index(&b, &new_cred.username) {
                    Some(j) => {
                        b.credentials.remove(j);
                        b.credentials.insert(j, new_cred);
                        self.buckets.insert(i, b);
                        proof {
                            assert(self@[i as int].credentials@ =~= old_self@[i as int].credentials@.update(
                                j as int,
                                new_cred,
                            ));
                            assert forall|k: int|
                                0 <= k < old_self@.len() && k != i implies self@[k] == old_self@[k] by {}
                            lemma_upsert_replace(old_self, *self, i as int, j as int, new_cred);
                        }
                    },
                    None => {
                        b.credentials.push(new_cred);
                        self.buckets.insert(i, b);
                        proof {
                            assert(self@[i as int].credentials@ =~= old_self@[i as int].credentials@.push(
                                new_cred,
                            ));
                            assert forall|k: int|
                                0 <= k < old_self@.len() && k != i implies self@[k] == old_self@[k] by {}
                            lemma_upsert_append(old_self, *self, i as int, new_cred);
                        }
                    },
                }
            },
            None => {
                let mut creds: Vec<Credential> = Vec::new();
                creds.push(new_cred);
                let b = Bucket { entry_hash, credentials: creds };
                self.buckets.push(b);
                proof {
                    lemma_upsert_new_bucket(old_self, *self, new_cred);
                }
            },
        }
    }

    /// Merge a credential under a plaintext entry name, hashing it first.
    pub fn upsert(&mut self, entry: &str, new_cred: Credential)
        requires
            old(self).wf(),
        ensures
            final(self).wf(),
            final(self).contains_cred(spec_hash(entry@), new_cred.username@, new_cred@),
            forall|eh: Seq<char>, uh: Seq<char>, c: CredentialData|
                !(eh == spec_hash(entry@) && uh == new_cred.username@) ==> (final(self).contains_cred(eh, uh, c) <==> old(self).contains_cred(eh, uh, c)),
            forall|eh: Seq<char>|
                final(self).has_entry(eh) <==> (old(self).has_entry(eh) || eh == spec_hash(
                    entry@,
                )),
    {
        let entry_hash = hash_sha256(entry);
        self.upsert_hashed(entry_hash, new_cred);
    }

    /// Look a secret up: hash the entry and username, find the matching
    /// credential, and decrypt it under the supplied master password. A
    /// missing record is not an error.
    pub fn get(&self, entry: &str, username: &str, master: &str) -> (r: Result<
        Option<String>,
        Error,
    >)
        requires
            self.wf(),
        ensures
            read_effect(*self, entry@, username@, master@, r),
    {
        let entry_hash = hash_sha256(entry);
        let username_hash = hash_sha256(username);
        let ghost eh = spec_hash(entry@);
        let ghost uh = spec_hash(username@);
        match self.find_bucket_index(&entry_hash) {
            Some(i) => {
                let b = &self.buckets[i];
                match find_cred_index(b, &username_hash) {
                    Some(j) => {
                        let found = &b.credentials[j];
                        proof {
                            assert(self.contains_cred(eh, uh, found@));
                            lemma_contains_unique(*self, eh, uh);
                        }
                        match found.password_string(master) {
                            Ok(s) => Ok(Some(s)),
                            Err(e) => Err(e),
                        }
                    },
                    None => {
                        proof {
                            lemma_no_match_in_bucket(*self, i as int, eh, uh);
                        }
                        Ok(None)
                    },
                }
            },
            None => {
                proof {
                    lemma_no_entry_no_cred(*self, eh, uh);
                }
                Ok(None)
            },
        }
    }

    /// Remove the credential under this entry and username, if any; remove
    /// the entry's bucket when it empties. Removing nothing is not an error
    /// and leaves the store untouched.
    pub fn delete(&mut self, entry: &str, username: &str)
        requires
            old(self).wf(),
        ensures
            delete_effect(*old(self), *final(self), entry@, username@),
    {
        let ghost old_self = *self;
        let entry_hash = hash_sha256(entry);
        let username_hash = hash_sha256(username);
        let ghost eh = spec_hash(entry@);
        let ghost uh = spec_hash(username@);
        match self.find_bucket_index(&entry_hash) {
            Some(i) => {
                match find_cred_index(&self.buckets[i], &username_hash) {
                    Some(j) => {
                        proof {
                            assert(old_self.contains_cred(eh, uh, self@[i as int].credentials@[j as int]@));
                        }
                        let mut bucket = self.buckets.remove(i);
                        bucket.credentials.remove(j);
                        if bucket.credentials.len() > 0 {
                            self.buckets.insert(i, bucket);
                            proof {
                                assert(self@[i as int].credentials@ =~= old_self@[i as int].credentials@.remove(
                                    j as int,
                                ));
                                assert forall|k: int|
                                    0 <= k < old_self@.len() && k != i implies self@[k]
                                    == old_self@[k] by {}
                                lemma_delete_in_bucket(old_self, *self, i as int, j as int, eh, uh);
                            }
                        } else {
                            proof {
                                lemma_delete_bucket(old_self, *self, i as int, j as int, eh, uh);
                            }
                        }
                    },
                    None => {
                        proof {
                            lemma_no_match_in_bucket(old_self, i as int, eh, uh);
                        }
                    },
                }
            },
            None => {
                proof {
                    lemma_no_entry_no_cred(old_self, eh, uh);
                }
            },
        }
    }
}

/// What reading `(entry, username)` under `master` from the store `s`
/// promises of the result `r`: not-found is `Ok(None)` and nothing else is,
/// and a found record answers as its codec contract says.
pub open spec fn read_effect(
    s: CredentialStore,
    entry: Seq<char>,
    username: Seq<char>,
    master: Seq<char>,
    r: Result<Option<String>, Error>,
) -> bool {
    &&& ((forall|c: CredentialData|
        !s.contains_cred(spec_hash(entry), spec_hash(username), c)) <==> r == Ok::<
        Option<String>,
        Error,
    >(None))
    &&& forall|c: CredentialData|
        s.contains_cred(spec_hash(entry), spec_hash(username), c) ==> match r {
            Ok(Some(x)) => read_outcome(c, master, Ok(x)),
            Ok(None) => false,
            Err(e) => read_outcome(c, master, Err(e)),
        }
    &&& forall|c: CredentialData, password: Seq<char>|
        s.contains_cred(spec_hash(entry), spec_hash(username), c) && encodes_secret(
            c,
            password,
            master,
        ) ==> (r matches Ok(p) && p matches Some(x) && x@ == password)
}

/// What deleting `(entry, username)` turns the store `s0` into: the pair is
/// gone, everything else is kept, and deleting what is absent changes
/// nothing.
pub open spec fn delete_effect(
    s0: CredentialStore,
    s1: CredentialStore,
    entry: Seq<char>,
    username: Seq<char>,
) -> bool {
    &&& s1.wf()
    &&& forall|c: CredentialData| !s1.contains_cred(spec_hash(entry), spec_hash(username), c)
    &&& forall|eh: Seq<char>, uh: Seq<char>, c: CredentialData|
        !(eh == spec_hash(entry) && uh == spec_hash(username)) ==> (s1.contains_cred(eh, uh, c)
            <==> s0.contains_cred(eh, uh, c))
    &&& ((forall|c: CredentialData| !s0.contains_cred(spec_hash(entry), spec_hash(username), c))
        ==> s1 == s0)
    &&& forall|eh: Seq<char>|
        eh != spec_hash(entry) ==> (s1.has_entry(eh) <==> s0.has_entry(eh))
}

/// What merging `(entry, username, password)` under `master` turns the store
/// `s0` into when the outcome is `ok`: on success exactly one fresh record
/// for the pair, holding the password under the master password; on failure
/// nothing at all; other pairs are kept either way.
pub open spec fn upsert_effect(
    s0: CredentialStore,
    s1: CredentialStore,
    entry: Seq<char>,
    username: Seq<char>,
    password: Seq<char>,
    master: Seq<char>,
    ok: bool,
) -> bool {
    &&& s1.wf()
    &&& forall|eh: Seq<char>, uh: Seq<char>, c: CredentialData|
        !(eh == spec_hash(entry) && uh == spec_hash(username)) ==> (s1.contains_cred(eh, uh, c)
            <==> s0.contains_cred(eh, uh, c))
    &&& ok ==> exists|c: CredentialData|
        {
            &&& c.username == spec_hash(username)
            &&& encodes_secret(c, password, master)
            &&& s1.contains_cred(spec_hash(entry), spec_hash(username), c)
        }
    &&& !ok ==> s1 == s0
}

/// In a well-formed store, one (entry hash, username hash) pair names at
/// most one credential: an upsert leaves exactly one record for it.
pub proof fn lemma_contains_unique(s: CredentialStore, eh: Seq<char>, uh: Seq<char>)
    requires
        s.wf(),
    ensures
        forall|c1: CredentialData, c2: CredentialData|
            s.contains_cred(eh, uh, c1) && s.contains_cred(eh, uh, c2) ==> c1 == c2,
{
    assert forall|c1: CredentialData, c2: CredentialData|
        s.contains_cred(eh, uh, c1) && s.contains_cred(eh, uh, c2) implies c1 == c2 by {
        let (i1, j1) = choose|i1: int, j1: int|
            {
                &&& 0 <= i1 < s@.len()
                &&& (#[trigger] s@[i1]).entry_hash@ == eh
                &&& 0 <= j1 < s@[i1].credentials@.len()
                &&& (#[trigger] s@[i1].credentials@[j1]).username@ == uh
                &&& s@[i1].credentials@[j1]@ == c1
            };
        let (i2, j2) = choose|i2: int, j2: int|
            {
                &&& 0 <= i2 < s@.len()
                &&& (#[trigger] s@[i2]).entry_hash@ == eh
                &&& 0 <= j2 < s@[i2].credentials@.len()
                &&& (#[trigger] s@[i2].credentials@[j2]).username@ == uh
                &&& s@[i2].credentials@[j2]@ == c2
            };
        assert(i1 == i2);
        assert(bucket_wf(s@[i1]));
        assert(j1 == j2);
    }
}

/// A well-formed store never keeps an empty bucket: every present entry
/// holds at least one credential.
pub proof fn lemma_entry_has_credential(s: CredentialStore, eh: Seq<char>)
    requires
        s.wf(),
        s.has_entry(eh),
    ensures
        exists|uh: Seq<char>, c: CredentialData| s.contains_cred(eh, uh, c),
{
    let i = choose|i: int| 0 <= i < s@.len() && (#[trigger] s@[i]).entry_hash@ == eh;
    assert(bucket_wf(s@[i]));
    let c = s@[i].credentials@[0];
    assert(s.contains_cred(eh, c.username@, c@));
}

/// An entry key survives a deletion only while another username's
/// credential remains under it: once the last one is gone, the key itself
/// is gone, and a later lookup says not-found rather than failing.
pub proof fn lemma_no_empty_entry(s: CredentialStore, eh: Seq<char>, uh: Seq<char>)
    requires
        s.wf(),
        s.has_entry(eh),
        forall|c: CredentialData| !s.contains_cred(eh, uh, c),
    ensures
        exists|uh2: Seq<char>, c: CredentialData| uh2 != uh && s.contains_cred(eh, uh2, c),
{
    lemma_entry_has_credential(s, eh);
    let (uh2, c) = choose|uh2: Seq<char>, c: CredentialData| s.contains_cred(eh, uh2, c);
    assert(uh2 != uh);
    assert(uh2 != uh && s.contains_cred(eh, uh2, c));
}

proof fn lemma_no_entry_no_cred(s: CredentialStore, eh: Seq<char>, uh: Seq<char>)
    requires
        forall|k: int| 0 <= k < s@.len() ==> (#[trigger] s@[k]).entry_hash@ != eh,
    ensures
        forall|c: CredentialData| !s.contains_cred(eh, uh, c),
        !s.has_entry(eh),
{
}

proof fn lemma_no_match_in_bucket(s: CredentialStore, i: int, eh: Seq<char>, uh: Seq<char>)
    requires
        s.wf(),
        0 <= i < s@.len(),
        s@[i].entry_hash@ == eh,
        forall|k: int|
            0 <= k < s@[i].credentials@.len() ==> (#[trigger] s@[i].credentials@[k]).username@
                != uh,
    ensures
        forall|c: CredentialData| !s.contains_cred(eh, uh, c),
{
    assert forall|c: CredentialData| !s.contains_cred(eh, uh, c) by {
        if s.contains_cred(eh, uh, c) {
            let (i2, j2) = choose|i2: int, j2: int|
                {
                    &&& 0 <= i2 < s@.len()
                    &&& (#[trigger] s@[i2]).entry_hash@ == eh
                    &&& 0 <= j2 < s@[i2].credentials@.len()
                    &&& (#[trigger] s@[i2].credentials@[j2]).username@ == uh
                    &&& s@[i2].credentials@[j2]@ == c
                };
            assert(i2 == i);
        }
    }
}

proof fn lemma_upsert_replace(
    s0: CredentialStore,
    s1: CredentialStore,
    i: int,
    j: int,
    nc: Credential,
)
    requires
        s0.wf(),
        0 <= i < s0@.len(),
        0 <= j < s0@[i].credentials@.len(),
        s0@[i].credentials@[j].username@ == nc.username@,
        s1@.len() == s0@.len(),
        forall|k: int| 0 <= k < s0@.len() && k != i ==> s1@[k] == s0@[k],
        s1@[i].entry_hash@ == s0@[i].entry_hash@,
        s1@[i].credentials@ == s0@[i].credentials@.update(j, nc),
    ensures
        s1.wf(),
        s1.contains_cred(s0@[i].entry_hash@, nc.username@, nc@),
        forall|eh: Seq<char>, uh: Seq<char>, c: CredentialData|
            !(eh == s0@[i].entry_hash@ && uh == nc.username@) ==> (s1.contains_cred(eh, uh, c)
                <==> s0.contains_cred(eh, uh, c)),
        forall|eh: Seq<char>| s1.has_entry(eh) <==> (s0.has_entry(eh) || eh == s0@[i].entry_hash@),
{
    let eh0 = s0@[i].entry_hash@;
    assert(bucket_wf(s0@[i]));
    assert(bucket_wf(s1@[i])) by {
        assert forall|a: int, b: int|
            0 <= a < b < s1@[i].credentials@.len() implies s1@[i].credentials@[a].username@
            != s1@[i].credentials@[b].username@ by {
            if a != j && b != j {
                assert(s1@[i].credentials@[a] == s0@[i].credentials@[a]);
                assert(s1@[i].credentials@[b] == s0@[i].credentials@[b]);
            }
        }
    }
    assert(s1.contains_cred(eh0, nc.username@, nc@)) by {
        assert(s1@[i].credentials@[j] == nc);
    }
    assert forall|eh: Seq<char>, uh: Seq<char>, c: CredentialData|
        !(eh == eh0 && uh == nc.username@) implies (s1.contains_cred(eh, uh, c)
        <==> s0.contains_cred(eh, uh, c)) by {
        if s1.contains_cred(eh, uh, c) {
            let (i2, j2) = choose|i2: int, j2: int|
                {
                    &&& 0 <= i2 < s1@.len()
                    &&& (#[trigger] s1@[i2]).entry_hash@ == eh
                    &&& 0 <= j2 < s1@[i2].credentials@.len()
                    &&& (#[trigger] s1@[i2].credentials@[j2]).username@ == uh
                    &&& s1@[i2].credentials@[j2]@ == c
                };
            if i2 == i {
                assert(j2 != j);
                assert(s0@[i2].credentials@[j2] == s1@[i2].credentials@[j2]);
            } else {
                assert(s0@[i2].credentials@[j2] == s1@[i2].credentials@[j2]);
            }
            assert(s0.contains_cred(eh, uh, c));
        }
        if s0.contains_cred(eh, uh, c) {
            let (i2, j2) = choose|i2: int, j2: int|
                {
                    &&& 0 <= i2 < s0@.len()
                    &&& (#[trigger] s0@[i2]).entry_hash@ == eh
                    &&& 0 <= j2 < s0@[i2].credentials@.len()
                    &&& (#[trigger] s0@[i2].credentials@[j2]).username@ == uh
                    &&& s0@[i2].credentials@[j2]@ == c
                };
            if i2 == i {
                assert(bucket_wf(s0@[i]));
                assert(j2 != j);
                assert(s1@[i2].credentials@[j2] == s0@[i2].credentials@[j2]);
            } else {
                assert(s1@[i2].credentials@[j2] == s0@[i2].credentials@[j2]);
            }
            assert(s1.contains_cred(eh, uh, c));
        }
    }
    assert forall|eh: Seq<char>| s1.has_entry(eh) <==> (s0.has_entry(eh) || eh == eh0) by {
        if s0.has_entry(eh) {
            let k = choose|k: int| 0 <= k < s0@.len() && (#[trigger] s0@[k]).entry_hash@ == eh;
            assert(s1@[k].entry_hash@ == eh);
        }
        if s1.has_entry(eh) {
            let k = choose|k: int| 0 <= k < s1@.len() && (#[trigger] s1@[k]).entry_hash@ == eh;
            assert(s0@[k].entry_hash@ == eh);
        }
        if eh == eh0 {
            assert(s1@[i].entry_hash@ == eh);
        }
    }
}

proof fn lemma_upsert_append(s0: CredentialStore, s1: CredentialStore, i: int, nc: Credential)
    requires
        s0.wf(),
        0 <= i < s0@.len(),
        s1@.len() == s0@.len(),
        forall|k: int| 0 <= k < s0@.len() && k != i ==> s1@[k] == s0@[k],
        s1@[i].entry_hash@ == s0@[i].entry_hash@,
        s1@[i].credentials@ == s0@[i].credentials@.push(nc),
        forall|k: int|
            0 <= k < s0@[i].credentials@.len() ==> (#[trigger] s0@[i].credentials@[k]).username@
                != nc.username@,
    ensures
        s1.wf(),
        s1.contains_cred(s0@[i].entry_hash@, nc.username@, nc@),
        forall|eh: Seq<char>, uh: Seq<char>, c: CredentialData|
            !(eh == s0@[i].entry_hash@ && uh == nc.username@) ==> (s1.contains_cred(eh, uh, c)
                <==> s0.contains_cred(eh, uh, c)),
        forall|eh: Seq<char>| s1.has_entry(eh) <==> (s0.has_entry(eh) || eh == s0@[i].entry_hash@),
{
    let eh0 = s0@[i].entry_hash@;
    let n = s0@[i].credentials@.len() as int;
    assert(bucket_wf(s0@[i]));
    assert(bucket_wf(s1@[i])) by {
        assert forall|a: int, b: int|
            0 <= a < b < s1@[i].credentials@.len() implies s1@[i].credentials@[a].username@
            != s1@[i].credentials@[b].username@ by {
            if b != n {
                assert(s1@[i].credentials@[a] == s0@[i].credentials@[a]);
                assert(s1@[i].credentials@[b] == s0@[i].credentials@[b]);
            } else {
                assert(s1@[i].credentials@[a] == s0@[i].credentials@[a]);
                assert(s1@[i].credentials@[b] == nc);
            }
        }
    }
    assert(s1.contains_cred(eh0, nc.username@, nc@)) by {
        assert(s1@[i].credentials@[n] == nc);
    }
    assert forall|eh: Seq<char>, uh: Seq<char>, c: CredentialData|
        !(eh == eh0 && uh == nc.username@) implies (s1.contains_cred(eh, uh, c)
        <==> s0.contains_cred(eh, uh, c)) by {
        if s1.contains_cred(eh, uh, c) {
            let (i2, j2) = choose|i2: int, j2: int|
                {
                    &&& 0 <= i2 < s1@.len()
                    &&& (#[trigger] s1@[i2]).entry_hash@ == eh
                    &&& 0 <= j2 < s1@[i2].credentials@.len()
                    &&& (#[trigger] s1@[i2].credentials@[j2]).username@ == uh
                    &&& s1@[i2].credentials@[j2]@ == c
                };
            if i2 == i {
                assert(j2 != n);
                assert(s0@[i2].credentials@[j2] == s1@[i2].credentials@[j2]);
            } else {
                assert(s0@[i2].credentials@[j2] == s1@[i2].credentials@[j2]);
            }
            assert(s0.contains_cred(eh, uh, c));
        }
        if s0.contains_cred(eh, uh, c) {
            let (i2, j2) = choose|i2: int, j2: int|
                {
                    &&& 0 <= i2 < s0@.len()
                    &&& (#[trigger] s0@[i2]).entry_hash@ == eh
                    &&& 0 <= j2 < s0@[i2].credentials@.len()
                    &&& (#[trigger] s0@[i2].credentials@[j2]).username@ == uh
                    &&& s0@[i2].credentials@[j2]@ == c
                };
            assert(s1@[i2].credentials@[j2] == s0@[i2].credentials@[j2]);
            assert(s1.contains_cred(eh, uh, c));
        }
    }
    assert forall|eh: Seq<char>| s1.has_entry(eh) <==> (s0.has_entry(eh) || eh == eh0) by {
        if s0.has_entry(eh) {
            let k = choose|k: int| 0 <= k < s0@.len() && (#[trigger] s0@[k]).entry_hash@ == eh;
            assert(s1@[k].entry_hash@ == eh);
        }
        if s1.has_entry(eh) {
            let k = choose|k: int| 0 <= k < s1@.len() && (#[trigger] s1@[k]).entry_hash@ == eh;
            assert(s0@[k].entry_hash@ == eh);
        }
        if eh == eh0 {
            assert(s1@[i].entry_hash@ == eh);
        }
    }
}

proof fn lemma_upsert_new_bucket(s0: CredentialStore, s1: CredentialStore, nc: Credential)
    requires
        s0.wf(),
        s1@.len() == s0@.len() + 1,
        forall|k: int| 0 <= k < s0@.len() ==> s1@[k] == s0@[k],
        forall|k: int|
            0 <= k < s0@.len() ==> (#[trigger] s0@[k]).entry_hash@ != s1@[s0@.len() as int].entry_hash@,
        s1@[s0@.len() as int].credentials@.len() == 1,
        s1@[s0@.len() as int].credentials@[0] == nc,
    ensures
        s1.wf(),
        s1.contains_cred(s1@[s0@.len() as int].entry_hash@, nc.username@, nc@),
        forall|eh: Seq<char>, uh: Seq<char>, c: CredentialData|
            !(eh == s1@[s0@.len() as int].entry_hash@ && uh == nc.username@) ==> (s1.contains_cred(
                eh,
                uh,
                c,
            ) <==> s0.contains_cred(eh, uh, c)),
        forall|eh: Seq<char>|
            s1.has_entry(eh) <==> (s0.has_entry(eh) || eh == s1@[s0@.len() as int].entry_hash@),
{
    let n = s0@.len() as int;
    let eh0 = s1@[n].entry_hash@;
    assert(bucket_wf(s1@[n]));
    assert forall|k: int| 0 <= k < s1@.len() implies bucket_wf(#[trigger] s1@[k]) by {
        if k < n {
            assert(s1@[k] == s0@[k]);
            assert(bucket_wf(s0@[k]));
        }
    }
    assert(s1.contains_cred(eh0, nc.username@, nc@)) by {
        assert(s1@[n].credentials@[0] == nc);
    }
    assert forall|eh: Seq<char>, uh: Seq<char>, c: CredentialData|
        !(eh == eh0 && uh == nc.username@) implies (s1.contains_cred(eh, uh, c)
        <==> s0.contains_cred(eh, uh, c)) by {
        if s1.contains_cred(eh, uh, c) {
            let (i2, j2) = choose|i2: int, j2: int|
                {
                    &&& 0 <= i2 < s1@.len()
                    &&& (#[trigger] s1@[i2]).entry_hash@ == eh
                    &&& 0 <= j2 < s1@[i2].credentials@.len()
                    &&& (#[trigger] s1@[i2].credentials@[j2]).username@ == uh
                    &&& s1@[i2].credentials@[j2]@ == c
                };
            assert(i2 < n);
            assert(s0@[i2].credentials@[j2] == s1@[i2].credentials@[j2]);
            assert(s0.contains_cred(eh, uh, c));
        }
        if s0.contains_cred(eh, uh, c) {
            let (i2, j2) = choose|i2: int, j2: int|
                {
                    &&& 0 <= i2 < s0@.len()
                    &&& (#[trigger] s0@[i2]).entry_hash@ == eh
                    &&& 0 <= j2 < s0@[i2].credentials@.len()
                    &&& (#[trigger] s0@[i2].credentials@[j2]).username@ == uh
                    &&& s0@[i2].credentials@[j2]@ == c
                };
            assert(s1@[i2].credentials@[j2] == s0@[i2].credentials@[j2]);
            assert(s1.contains_cred(eh, uh, c));
        }
    }
    assert forall|eh: Seq<char>| s1.has_entry(eh) <==> (s0.has_entry(eh) || eh == eh0) by {
        if s0.has_entry(eh) {
            let k = choose|k: int| 0 <= k < s0@.len() && (#[trigger] s0@[k]).entry_hash@ == eh;
            assert(s1@[k].entry_hash@ == eh);
        }
        if s1.has_entry(eh) {
            let k = choose|k: int| 0 <= k < s1@.len() && (#[trigger] s1@[k]).entry_hash@ == eh;
            if k < n {
                assert(s0@[k].entry_hash@ == eh);
            }
        }
        if eh == eh0 {
            assert(s1@[n].entry_hash@ == eh);
        }
    }
}

proof fn lemma_delete_in_bucket(
    s0: CredentialStore,
    s1: CredentialStore,
    i: int,
    j: int,
    eh: Seq<char>,
    uh: Seq<char>,
)
    requires
        s0.wf(),
        0 <= i < s0@.len(),
        s0@[i].entry_hash@ == eh,
        0 <= j < s0@[i].credentials@.len(),
        s0@[i].credentials@[j].username@ == uh,
        s1@.len() == s0@.len(),
        forall|k: int| 0 <= k < s0@.len() && k != i ==> s1@[k] == s0@[k],
        s1@[i].entry_hash@ == eh,
        s1@[i].credentials@ == s0@[i].credentials@.remove(j),
        s1@[i].credentials@.len() > 0,
    ensures
        s1.wf(),
        forall|c: CredentialData| !s1.contains_cred(eh, uh, c),
        forall|eh2: Seq<char>, uh2: Seq<char>, c: CredentialData|
            !(eh2 == eh && uh2 == uh) ==> (s1.contains_cred(eh2, uh2, c) <==> s0.contains_cred(
                eh2,
                uh2,
                c,
            )),
        forall|eh2: Seq<char>| eh2 != eh ==> (s1.has_entry(eh2) <==> s0.has_entry(eh2)),
{
    assert(bucket_wf(s0@[i]));
    assert(bucket_wf(s1@[i])) by {
        assert forall|a: int, b: int|
            0 <= a < b < s1@[i].credentials@.len() implies s1@[i].credentials@[a].username@
            != s1@[i].credentials@[b].username@ by {
            let aa = if a < j {
                a
            } else {
                a + 1
            };
            let bb = if b < j {
                b
            } else {
                b + 1
            };
            assert(s1@[i].credentials@[a] == s0@[i].credentials@[aa]);
            assert(s1@[i].credentials@[b] == s0@[i].credentials@[bb]);
        }
    }
    assert forall|c: CredentialData| !s1.contains_cred(eh, uh, c) by {
        if s1.contains_cred(eh, uh, c) {
            let (i2, j2) = choose|i2: int, j2: int|
                {
                    &&& 0 <= i2 < s1@.len()
                    &&& (#[trigger] s1@[i2]).entry_hash@ == eh
                    &&& 0 <= j2 < s1@[i2].credentials@.len()
                    &&& (#[trigger] s1@[i2].credentials@[j2]).username@ == uh
                    &&& s1@[i2].credentials@[j2]@ == c
                };
            assert(i2 == i);
            let jj = if j2 < j {
                j2
            } else {
                j2 + 1
            };
            assert(s0@[i].credentials@[jj] == s1@[i].credentials@[j2]);
            assert(jj != j);
        }
    }
    assert forall|eh2: Seq<char>, uh2: Seq<char>, c: CredentialData|
        !(eh2 == eh && uh2 == uh) implies (s1.contains_cred(eh2, uh2, c) <==> s0.contains_cred(
        eh2,
        uh2,
        c,
    )) by {
        if s1.contains_cred(eh2, uh2, c) {
            let (i2, j2) = choose|i2: int, j2: int|
                {
                    &&& 0 <= i2 < s1@.len()
                    &&& (#[trigger] s1@[i2]).entry_hash@ == eh2
                    &&& 0 <= j2 < s1@[i2].credentials@.len()
                    &&& (#[trigger] s1@[i2].credentials@[j2]).username@ == uh2
                    &&& s1@[i2].credentials@[j2]@ == c
                };
            if i2 == i {
                let jj = if j2 < j {
                    j2
                } else {
                    j2 + 1
                };
                assert(s0@[i].credentials@[jj] == s1@[i].credentials@[j2]);
                assert(s0.contains_cred(eh2, uh2, c));
            } else {
                assert(s0@[i2].credentials@[j2] == s1@[i2].credentials@[j2]);
                assert(s0.contains_cred(eh2, uh2, c));
            }
        }
        if s0.contains_cred(eh2, uh2, c) {
            let (i2, j2) = choose|i2: int, j2: int|
                {
                    &&& 0 <= i2 < s0@.len()
                    &&& (#[trigger] s0@[i2]).entry_hash@ == eh2
                    &&& 0 <= j2 < s0@[i2].credentials@.len()
                    &&& (#[trigger] s0@[i2].credentials@[j2]).username@ == uh2
                    &&& s0@[i2].credentials@[j2]@ == c
                };
            if i2 == i {
                assert(eh2 == eh);
                assert(j2 != j) by {
                    assert(bucket_wf(s0@[i]));
                }
                let jj = if j2 < j {
                    j2
                } else {
                    j2 - 1
                };
                assert(s1@[i].credentials@[jj] == s0@[i].credentials@[j2]);
                assert(s1.contains_cred(eh2, uh2, c));
            } else {
                assert(s1@[i2].credentials@[j2] == s0@[i2].credentials@[j2]);
                assert(s1.contains_cred(eh2, uh2, c));
            }
        }
    }
    assert forall|eh2: Seq<char>| eh2 != eh implies (s1.has_entry(eh2) <==> s0.has_entry(
        eh2,
    )) by {
        if s0.has_entry(eh2) {
            let k = choose|k: int| 0 <= k < s0@.len() && (#[trigger] s0@[k]).entry_hash@ == eh2;
            assert(s1@[k].entry_hash@ == eh2);
        }
        if s1.has_entry(eh2) {
            let k = choose|k: int| 0 <= k < s1@.len() && (#[trigger] s1@[k]).entry_hash@ == eh2;
            assert(s0@[k].entry_hash@ == eh2);
        }
    }
}

proof fn lemma_delete_bucket(
    s0: CredentialStore,
    s1: CredentialStore,
    i: int,
    j: int,
    eh: Seq<char>,
    uh: Seq<char>,
)
    requires
        s0.wf(),
        0 <= i < s0@.len(),
        s0@[i].entry_hash@ == eh,
        0 <= j < s0@[i].credentials@.len(),
        s0@[i].credentials@[j].username@ == uh,
        s0@[i].credentials@.len() == 1,
        s1@ == s0@.remove(i),
    ensures
        s1.wf(),
        forall|c: CredentialData| !s1.contains_cred(eh, uh, c),
        forall|eh2: Seq<char>, uh2: Seq<char>, c: CredentialData|
            !(eh2 == eh && uh2 == uh) ==> (s1.contains_cred(eh2, uh2, c) <==> s0.contains_cred(
                eh2,
                uh2,
                c,
            )),
        forall|eh2: Seq<char>| eh2 != eh ==> (s1.has_entry(eh2) <==> s0.has_entry(eh2)),
        !s1.has_entry(eh),
{
    assert forall|k: int| 0 <= k < s1@.len() implies bucket_wf(#[trigger] s1@[k]) by {
        let kk = if k < i {
            k
        } else {
            k + 1
        };
        assert(s1@[k] == s0@[kk]);
        assert(bucket_wf(s0@[kk]));
    }
    assert forall|a: int, b: int|
        0 <= a < b < s1@.len() implies s1@[a].entry_hash@ != s1@[b].entry_hash@ by {
        let aa = if a < i {
            a
        } else {
            a + 1
        };
        let bb = if b < i {
            b
        } else {
            b + 1
        };
        assert(s1@[a] == s0@[aa]);
        assert(s1@[b] == s0@[bb]);
    }
    assert forall|c: CredentialData| !s1.contains_cred(eh, uh, c) by {
        if s1.contains_cred(eh, uh, c) {
            let (i2, j2) = choose|i2: int, j2: int|
                {
                    &&& 0 <= i2 < s1@.len()
                    &&& (#[trigger] s1@[i2]).entry_hash@ == eh
                    &&& 0 <= j2 < s1@[i2].credentials@.len()
                    &&& (#[trigger] s1@[i2].credentials@[j2]).username@ == uh
                    &&& s1@[i2].credentials@[j2]@ == c
                };
            let ii = if i2 < i {
                i2
            } else {
                i2 + 1
            };
            assert(s1@[i2] == s0@[ii]);
            assert(ii != i);
        }
    }
    assert(!s1.has_entry(eh)) by {
        if s1.has_entry(eh) {
            let k = choose|k: int| 0 <= k < s1@.len() && (#[trigger] s1@[k]).entry_hash@ == eh;
            let kk = if k < i {
                k
            } else {
                k + 1
            };
            assert(s1@[k] == s0@[kk]);
            assert(kk != i);
        }
    }
    assert forall|eh2: Seq<char>, uh2: Seq<char>, c: CredentialData|
        !(eh2 == eh && uh2 == uh) implies (s1.contains_cred(eh2, uh2, c) <==> s0.contains_cred(
        eh2,
        uh2,
        c,
    )) by {
        if s1.contains_cred(eh2, uh2, c) {
            let (i2, j2) = choose|i2: int, j2: int|
                {
                    &&& 0 <= i2 < s1@.len()
                    &&& (#[trigger] s1@[i2]).entry_hash@ == eh2
                    &&& 0 <= j2 < s1@[i2].credentials@.len()
                    &&& (#[trigger] s1@[i2].credentials@[j2]).username@ == uh2
                    &&& s1@[i2].credentials@[j2]@ == c
                };
            let ii = if i2 < i {
                i2
            } else {
                i2 + 1
            };
            assert(s1@[i2] == s0@[ii]);
            assert(s0.contains_cred(eh2, uh2, c));
        }
        if s0.contains_cred(eh2, uh2, c) {
            let (i2, j2) = choose|i2: int, j2: int|
                {
                    &&& 0 <= i2 < s0@.len()
                    &&& (#[trigger] s0@[i2]).entry_hash@ == eh2
                    &&& 0 <= j2 < s0@[i2].credentials@.len()
                    &&& (#[trigger] s0@[i2].credentials@[j2]).username@ == uh2
                    &&& s0@[i2].credentials@[j2]@ == c
                };
            if i2 == i {
                assert(eh2 == eh);
                assert(j2 == 0);
                assert(uh2 == uh);
            } else {
                let ii = if i2 < i {
                    i2
                } else {
                    i2 - 1
                };
                assert(s1@[ii] == s0@[i2]);
                assert(s1.contains_cred(eh2, uh2, c));
            }
        }
    }
    assert forall|eh2: Seq<char>| eh2 != eh implies (s1.has_entry(eh2) <==> s0.has_entry(
        eh2,
    )) by {
        if s0.has_entry(eh2) {
            let k = choose|k: int| 0 <= k < s0@.len() && (#[trigger] s0@[k]).entry_hash@ == eh2;
            assert(k != i);
            let kk = if k < i {
                k
            } else {
                k - 1
            };
            assert(s1@[kk] == s0@[k]);
        }
        if s1.has_entry(eh2) {
            let k = choose|k: int| 0 <= k < s1@.len() && (#[trigger] s1@[k]).entry_hash@ == eh2;
            let kk = if k < i {
                k
            } else {
                k + 1
            };
            assert(s0@[kk] == s1@[k]);
        }
    }
}

} // verus!

