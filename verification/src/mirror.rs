//! The commands of the chain-mirroring tool, as far as they decide anything.
//! Reading secrets, mapping records and talking to nodes is left to the
//! caller: a command says what is to be done, and judges what came back.

use vstd::prelude::*;

verus! {

/// Writes a new genesis records file in which the public keys are mapped,
/// so that transactions of the source chain can be signed for the target
/// chain.
pub struct PrepareCmd {
    /// The records file to read.
    pub records_file_in: String,
    /// The records file to write, with the keys mapped.
    pub records_file_out: String,
    /// Map the keys without a secret.
    pub no_secret: bool,
    /// Where the secret is written.
    pub secret_file_out: String,
}

/// The one piece of work that `PrepareCmd` asks for.
pub struct MapRecords {
    pub records_file_in: String,
    pub records_file_out: String,
    pub no_secret: bool,
    pub secret_file_out: String,
}

impl PrepareCmd {
    /// The work that the command asks for: the records are mapped from the
    /// one file to the other, with or without a secret as the command says.
    pub fn run(self) -> (work: MapRecords)
        ensures
            work.records_file_in == self.records_file_in,
            work.records_file_out == self.records_file_out,
            work.no_secret == self.no_secret,
            work.secret_file_out == self.secret_file_out,
    {
        MapRecords {
            records_file_in: self.records_file_in,
            records_file_out: self.records_file_out,
            no_secret: self.no_secret,
            secret_file_out: self.secret_file_out,
        }
    }
}

/// Why the mirror refuses to start.
#[derive(Clone, Copy, Debug, PartialEq, Eq, Structural)]
pub enum SecretError {
    /// Neither a secret file nor the choice to do without one was given.
    Missing,
    /// The secret file holds a secret, and the command forbids one.
    Unwanted,
}

/// What the run command was told about the secret.
pub struct RunCmd {
    /// The file that holds the secret, or says that there is none.
    pub secret_file: Option<String>,
    /// Mirror without a secret.
    pub no_secret: bool,
}

impl RunCmd {
    /// The secret file to read before the mirror starts, if there is one to
    /// read. Without a file the command must say that no secret is wanted.
    pub fn secret_file_to_read(&self) -> (file: Result<Option<&String>, SecretError>)
        ensures
            match self.secret_file {
                Some(path) => file == Ok::<Option<&String>, SecretError>(Some(&path)),
                None => if self.no_secret {
                    file == Ok::<Option<&String>, SecretError>(None)
                } else {
                    file == Err::<Option<&String>, SecretError>(SecretError::Missing)
                },
            },
    {
        match &self.secret_file {
            Some(path) => Ok(Some(path)),
            None => if self.no_secret {
                Ok(None)
            } else {
                Err(SecretError::Missing)
            },
        }
    }

    /// Judges what the secret file held: a secret is refused where the
    /// command forbids one, and anything else is accepted.
    pub fn accept_secret(&self, holds_secret: bool) -> (accepted: Result<(), SecretError>)
        ensures
            accepted == if holds_secret && self.no_secret {
                Err::<(), SecretError>(SecretError::Unwanted)
            } else {
                Ok::<(), SecretError>(())
            },
    {
        if holds_secret && self.no_secret {
            Err(SecretError::Unwanted)
        } else {
            Ok(())
        }
    }
}

/// What an access key of the source chain permits.
#[derive(Clone, Copy, Debug, PartialEq, Eq, Structural)]
pub enum KeyAccess {
    FullAccess,
    FunctionCall,
}

/// Whether an account probably got an extra full access key when it was
/// mapped: none of its keys, as far as their permission is known, grants
/// full access. An account without keys counts.
pub fn probably_extra_key(permissions: &Vec<Option<KeyAccess>>) -> (probably: bool)
    ensures
        probably == forall|i: int|
            0 <= i < permissions@.len() ==> permissions@[i] != Some(KeyAccess::FullAccess),
{
    let mut i: usize = 0;
    while i < permissions.len()
        invariant
            i <= permissions@.len(),
            forall|k: int| 0 <= k < i ==> permissions@[k] != Some(KeyAccess::FullAccess),
        decreases permissions@.len() - i,
    {
        match permissions[i] {
            Some(KeyAccess::FullAccess) => {
                return false;
            },
            _ => {},
        }
        i += 1;
    }
    true
}

} // verus!
