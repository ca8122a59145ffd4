use vstd::prelude::*;

use crate::entry::{Credential, GCM_P_MAX};
use crate::error::Error;
use crate::store::{delete_effect, read_effect, upsert_effect, CredentialStore};

verus! {

use vstd::utf8::encode_utf8;

/// Inputs of the create command, gathered by the caller's prompts: the
/// entry name (already normalised), the username, the new secret, and the
/// master password.
pub struct CreateArgs {
    pub entry: String,
    pub username: String,
    pub password: String,
    pub master: String,
}

impl CreateArgs {
    /// Build a fresh credential from the inputs and merge it into the store.
    pub fn process_command(&self, store: &mut CredentialStore) -> (r: Result<(), Error>)
        requires
            old(store).wf(),
        ensures
            upsert_effect(
                *old(store),
                *final(store),
                self.entry@,
                self.username@,
                self.password@,
                self.master@,
                r is Ok,
            ),
            r matches Err(e) ==> e == Error::AESGCMError,
            encode_utf8(self.password@).len() <= GCM_P_MAX ==> r is Ok,
    {
        upsert_secret(store, &self.entry, &self.username, &self.password, &self.master)
    }
}

/// Inputs of the read command: the entry name, the username, and the master
/// password to decrypt with.
pub struct ReadArgs {
    pub entry: String,
    pub username: String,
    pub master: String,
}

impl ReadArgs {
    /// Look the secret up and hand it back; the caller owns its ephemeral
    /// display.
    pub fn process_command(&self, store: &CredentialStore) -> (r: Result<Option<String>, Error>)
        requires
            store.wf(),
        ensures
            read_effect(*store, self.entry@, self.username@, self.master@, r),
    {
        store.get(self.entry.as_str(), self.username.as_str(), self.master.as_str())
    }
}

/// Inputs of the update command; updating is the same merge as creating,
/// with fresh salt and nonce.
pub struct UpdateArgs {
    pub entry: String,
    pub username: String,
    pub password: String,
    pub master: String,
}

impl UpdateArgs {
    /// Build a fresh credential from the inputs and merge it into the store.
    pub fn process_command(&self, store: &mut CredentialStore) -> (r: Result<(), Error>)
        requires
            old(store).wf(),
        ensures
            upsert_effect(
                *old(store),
                *final(store),
                self.entry@,
                self.username@,
                self.password@,
                self.master@,
                r is Ok,
            ),
            r matches Err(e) ==> e == Error::AESGCMError,
            encode_utf8(self.password@).len() <= GCM_P_MAX ==> r is Ok,
    {
        upsert_secret(store, &self.entry, &self.username, &self.password, &self.master)
    }
}

/// Inputs of the delete command: the entry name and the username whose
/// record goes.
pub struct DeleteArgs {
    pub entry: String,
    pub username: String,
}

impl DeleteArgs {
    /// Remove the record; removing what is absent succeeds and changes
    /// nothing.
    pub fn process_command(&self, store: &mut CredentialStore) -> (r: Result<(), Error>)
        requires
            old(store).wf(),
        ensures
            delete_effect(*old(store), *final(store), self.entry@, self.username@),
            r is Ok,
    {
        store.delete(self.entry.as_str(), self.username.as_str());
        Ok(())
    }
}

/// Encrypt a secret and merge the resulting credential into the store: the
/// one body behind the create and update commands.
fn upsert_secret(
    store: &mut CredentialStore,
    entry: &String,
    username: &String,
    password: &String,
    master: &String,
) -> (r: Result<(), Error>)
    requires
        old(store).wf(),
    ensures
        upsert_effect(
            *old(store),
            *final(store),
            entry@,
            username@,
            password@,
            master@,
            r is Ok,
        ),
        r matches Err(e) ==> e == Error::AESGCMError,
        encode_utf8(password@).len() <= GCM_P_MAX ==> r is Ok,
{
    match Credential::new(username.as_str(), password.as_str(), master.as_str()) {
        Ok(c) => {
            let ghost cv = c@;
            store.upsert(entry.as_str(), c);
            proof {
                assert(store.contains_cred(crate::entry::spec_hash(entry@), cv.username, cv));
            }
            Ok(())
        },
        Err(e) => Err(e),
    }
}

} // verus!
