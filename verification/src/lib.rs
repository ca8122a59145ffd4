pub mod cli;
pub mod entry;
pub mod error;
pub mod store;

pub use error::Error;

use vstd::prelude::*;

use cli::{CreateArgs, DeleteArgs, ReadArgs, UpdateArgs};
use store::{delete_effect, read_effect, upsert_effect, CredentialStore};

verus! {

use vstd::utf8::encode_utf8;

/// One parsed invocation: a command with its gathered inputs.
pub enum Commands {
    /// Create a new record.
    Create(CreateArgs),
    /// Read a secret back.
    Read(ReadArgs),
    /// Update an existing record; same merge as create.
    Update(UpdateArgs),
    /// Delete a record.
    Delete(DeleteArgs),
}

impl Commands {
    /// Apply the command to the loaded store. Only `Read` answers with a
    /// secret; the caller persists the store afterwards and owns the
    /// ephemeral display of what `Read` returns.
    pub fn process_command(&self, store: &mut CredentialStore) -> (r: Result<
        Option<String>,
        Error,
    >)
        requires
            old(store).wf(),
        ensures
            final(store).wf(),
            match self {
                Commands::Create(a) => {
                    &&& upsert_effect(
                        *old(store),
                        *final(store),
                        a.entry@,
                        a.username@,
                        a.password@,
                        a.master@,
                        r is Ok,
                    )
                    &&& (r matches Ok(p) ==> p is None)
                    &&& (r matches Err(e) ==> e == Error::AESGCMError)
                    &&& (encode_utf8(a.password@).len() <= entry::GCM_P_MAX ==> r is Ok)
                },
                Commands::Read(a) => {
                    &&& *final(store) == *old(store)
                    &&& read_effect(*old(store), a.entry@, a.username@, a.master@, r)
                },
                Commands::Update(a) => {
                    &&& upsert_effect(
                        *old(store),
                        *final(store),
                        a.entry@,
                        a.username@,
                        a.password@,
                        a.master@,
                        r is Ok,
                    )
                    &&& (r matches Ok(p) ==> p is None)
                    &&& (r matches Err(e) ==> e == Error::AESGCMError)
                    &&& (encode_utf8(a.password@).len() <= entry::GCM_P_MAX ==> r is Ok)
                },
                Commands::Delete(a) => {
                    &&& delete_effect(*old(store), *final(store), a.entry@, a.username@)
                    &&& r == Ok::<Option<String>, Error>(None)
                },
            },
    {
        match self {
            Commands::Create(args) => match args.process_command(store) {
                Ok(_) => Ok(None),
                Err(e) => Err(e),
            },
            Commands::Read(args) => args.process_command(store),
            Commands::Update(args) => match args.process_command(store) {
                Ok(_) => Ok(None),
                Err(e) => Err(e),
            },
            Commands::Delete(args) => match args.process_command(store) {
                Ok(_) => Ok(None),
                Err(e) => Err(e),
            },
        }
    }
}

/// A whole parsed command line.
pub struct Cli {
    pub command: Commands,
}

} // verus!
