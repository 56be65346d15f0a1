use vstd::prelude::*;
use vstd::string::{StrSliceExecFns, StringExecFns};
use rand::Rng;
use crate::errors::{Error, InterpreterError};
use crate::hex::{lemma_hex_len, spec_to_hex, to_hex};

verus! {

/// What is to be done next to set up the files of a store.
#[derive(Debug, PartialEq, Eq)]
pub enum SetupStep {
    /// Create the data directory and what leads to it.
    CreateDirectory,
    /// Name the store file in the data directory.
    NameStore,
    /// Open the index in the store file.
    OpenIndex,
    /// Look for the tables of the side store.
    CheckSchema,
    /// Begin a storage transaction for the tables.
    BeginStorageTx,
    /// Create the tables.
    InitializeSchema,
    /// Commit the storage transaction.
    CommitStorageTx,
    /// Nothing: the store is set up.
    Done,
}

/// Whether what came of a step is beyond repair: the tables of the side
/// store are missing and could not be made, be it that the storage
/// transaction could not be begun, the tables could not be created, or the
/// transaction could not be committed. Nothing is decided then: the caller
/// stops the process.
pub open spec fn setup_is_fatal(step: SetupStep, outcome: Result<(), Error>) -> bool {
    outcome is Err && (step is BeginStorageTx || step is InitializeSchema
        || step is CommitStorageTx)
}

/// The step that follows a step, or the error that ends the setup, by what
/// came of the step. Tables that are not found are made; a directory that
/// cannot be created, a store file that cannot be named and an index that
/// cannot be opened end the setup with their errors.
pub open spec fn spec_setup_step(step: SetupStep, outcome: Result<(), Error>) -> Result<
    SetupStep,
    InterpreterError,
> {
    match step {
        SetupStep::CreateDirectory => match outcome {
            Ok(_) => Ok(SetupStep::NameStore),
            Err(_) => Err(InterpreterError::FailedToCreateDataDirectory),
        },
        SetupStep::NameStore => match outcome {
            Ok(_) => Ok(SetupStep::OpenIndex),
            Err(_) => Err(InterpreterError::BadFileName),
        },
        SetupStep::OpenIndex => match outcome {
            Ok(_) => Ok(SetupStep::CheckSchema),
            Err(e) => Err(InterpreterError::MarfFailure(e)),
        },
        SetupStep::CheckSchema => match outcome {
            Ok(_) => Ok(SetupStep::Done),
            Err(_) => Ok(SetupStep::BeginStorageTx),
        },
        SetupStep::BeginStorageTx => Ok(SetupStep::InitializeSchema),
        SetupStep::InitializeSchema => Ok(SetupStep::CommitStorageTx),
        SetupStep::CommitStorageTx => Ok(SetupStep::Done),
        SetupStep::Done => Ok(SetupStep::Done),
    }
}

/// Tells whether what came of a step is beyond repair, so that the caller
/// stops instead of asking how to go on.
pub fn is_fatal(step: &SetupStep, outcome: &Result<(), Error>) -> (fatal: bool)
    ensures
        fatal == setup_is_fatal(*step, *outcome),
{
    match step {
        SetupStep::BeginStorageTx => outcome.is_err(),
        SetupStep::InitializeSchema => outcome.is_err(),
        SetupStep::CommitStorageTx => outcome.is_err(),
        _ => false,
    }
}

/// Decides how the setup of a store goes on after a step. It is not asked
/// where the tables of the side store could not be made: the caller stops
/// there.
pub fn setup_step(step: SetupStep, outcome: Result<(), Error>) -> (r: Result<
    SetupStep,
    InterpreterError,
>)
    requires
        !setup_is_fatal(step, outcome),
    ensures
        r == spec_setup_step(step, outcome),
{
    match step {
        SetupStep::CreateDirectory => match outcome {
            Ok(_) => Ok(SetupStep::NameStore),
            Err(_) => Err(InterpreterError::FailedToCreateDataDirectory),
        },
        SetupStep::NameStore => match outcome {
            Ok(_) => Ok(SetupStep::OpenIndex),
            Err(_) => Err(InterpreterError::BadFileName),
        },
        SetupStep::OpenIndex => match outcome {
            Ok(_) => Ok(SetupStep::CheckSchema),
            Err(e) => Err(InterpreterError::MarfFailure(e)),
        },
        SetupStep::CheckSchema => match outcome {
            Ok(_) => Ok(SetupStep::Done),
            Err(_) => Ok(SetupStep::BeginStorageTx),
        },
        SetupStep::BeginStorageTx => Ok(SetupStep::InitializeSchema),
        SetupStep::InitializeSchema => Ok(SetupStep::CommitStorageTx),
        SetupStep::CommitStorageTx => Ok(SetupStep::Done),
        SetupStep::Done => Ok(SetupStep::Done),
    }
}

/// The name of the store file in a data directory: the directory, a `/`
/// unless the directory is empty or ends in one, and `marf.sqlite`.
pub open spec fn spec_store_file_path(dir: Seq<char>) -> Seq<char> {
    if dir.len() == 0 || dir.last() == '/' {
        dir + "marf.sqlite"@
    } else {
        dir + "/"@ + "marf.sqlite"@
    }
}

/// Names the store file in a data directory.
pub fn store_file_path(dir: &str) -> (path: String)
    ensures
        path@ == spec_store_file_path(dir@),
{
    let n = dir.unicode_len();
    let mut path = String::from_str(dir);
    if n > 0 && dir.get_char(n - 1) != '/' {
        path.append("/");
    }
    path.append("marf.sqlite");
    path
}

/// `rand::thread_rng().gen::<[u8; 32]>()`: 32 bytes from the generator of the
/// thread. Nothing is known of them: two calls may differ. The generator is
/// seeded by the system, and the call fails where the system has no random
/// source.
#[verifier::external_body]
fn random_bytes() -> (out: [u8; 32]) {
    rand::thread_rng().gen::<[u8; 32]>()
}

/// A name for the directory of a store that is kept for a short while: 32
/// random bytes as 64 hexadecimal digits.
pub fn temporary_name() -> (name: String)
    ensures
        exists|bytes: Seq<u8>| bytes.len() == 32 && name@ == #[trigger] spec_to_hex(bytes),
        name@.len() == 64,
{
    let random_bytes = random_bytes();
    proof {
        lemma_hex_len(random_bytes@);
    }
    to_hex(random_bytes.as_slice())
}

} // verus!
