//! The library's own error.

use vstd::prelude::*;
use vstd::string::*;

verus! {

/// An error for functionality that is not there yet.
#[derive(Debug)]
pub enum DoomError {
    NotImplementedError { functionality: String },
}

/// The text of a `NotImplementedError` about `functionality`.
pub open spec fn not_implemented_text(functionality: Seq<char>) -> Seq<char> {
    "This functionality '"@ + functionality + "' is not implemented."@
}

impl DoomError {
    /// What the error says: "This functionality '<functionality>' is not implemented."
    pub fn message(&self) -> (s: String)
        ensures
            match self {
                DoomError::NotImplementedError { functionality } => s@ == not_implemented_text(
                    functionality@,
                ),
            },
    {
        match self {
            DoomError::NotImplementedError { functionality } => {
                let mut s = String::from_str("This functionality '");
                s.append(functionality.as_str());
                s.append("' is not implemented.");
                s
            },
        }
    }
}

} // verus!
