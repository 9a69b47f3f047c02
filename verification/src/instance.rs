//! One ekanban per database: the lock file that marks a database as taken.
use vstd::prelude::*;

verus! {

#[verifier::external_type_specification]
#[verifier::external_body]
pub struct ExIoError(std::io::Error);

/// Why a database could not be taken.
#[derive(Debug)]
pub enum InstanceError {
    Io { path: String, source: std::io::Error },
    AlreadyRunning(String),
}

/// The extension added to the database path to name its lock file.
pub open spec fn lock_suffix() -> Seq<char> {
    seq!['.', 'l', 'o', 'c', 'k']
}

/// Where the lock file of a database stands: next to it, under the same name with `.lock`
/// added, so that another database path is another lock.
pub fn lock_path(database_path: &str) -> (r: String)
    ensures
        r@ == database_path@ + lock_suffix(),
{
    let mut path = String::from_str(database_path);
    path.append(".lock");
    proof {
        reveal_strlit(".lock");
        assert(".lock"@ =~= lock_suffix());
    }
    path
}

/// The start of the message for a database that another ekanban has taken.
pub open spec fn already_running_text() -> Seq<char> {
    "another ekanban is already using "@
}

impl InstanceError {
    /// The message shown for this error: the path, `: ` and what the system says of the
    /// failure; or, for a database already taken, that another ekanban is using the path.
    pub fn message(&self) -> (r: String)
        ensures
            match self {
                InstanceError::Io { path, .. } => exists|said: Seq<char>| r@ == path@ + ": "@ + said,
                InstanceError::AlreadyRunning(path) => r@ == already_running_text() + path@,
            },
    {
        match self {
            InstanceError::Io { path, source } => {
                let mut message = path.clone();
                message.append(": ");
                let said = io_error_text(source);
                message.append(said.as_str());
                proof {
                    assert(message@ == path@ + ": "@ + said@);
                }
                message
            },
            InstanceError::AlreadyRunning(path) => {
                let mut message = String::from_str("another ekanban is already using ");
                message.append(path.as_str());
                message
            },
        }
    }
}

/// What the system says of an I/O failure: the `Display` of `std::io::Error`, which
/// depends on the failure and the machine; nothing is claimed of it.
#[verifier::external_body]
fn io_error_text(source: &std::io::Error) -> String {
    source.to_string()
}

} // verus!
