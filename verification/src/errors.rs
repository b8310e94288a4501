//! The launcher's error, as commands report it.

use vstd::prelude::*;

verus! {

/// Why a command failed.
#[derive(Debug)]
pub enum Error {
    /// Something the user asked for doesn't exist or can't be done.
    Other(String),
    /// A file or program the command needs isn't set up.
    NotConfigured(String),
}

impl Error {
    /// The message shown to the user.
    pub open spec fn message_view(self) -> Seq<char> {
        match self {
            Error::Other(m) => m@,
            Error::NotConfigured(m) => m@,
        }
    }

    /// The message shown to the user (what `Display` prints).
    pub fn message(&self) -> (r: &str)
        ensures
            r@ == self.message_view(),
    {
        match self {
            Error::Other(m) => m.as_str(),
            Error::NotConfigured(m) => m.as_str(),
        }
    }
}

} // verus!
