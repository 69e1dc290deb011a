//! What can go wrong with a listing or a read, as a message for display.

use vstd::prelude::*;
use vstd::string::StringExecFns;

verus! {

/// A failure, holding the words of what failed underneath.
pub enum Error {
    /// A file or directory could not be opened or read.
    Io(String),
    /// The directory walk could not be set up.
    WalkDir(String),
}

/// The message of a failure of reading.
pub open spec fn io_message(detail: Seq<char>) -> Seq<char> {
    "IO error: "@ + detail
}

/// The message of a failure of walking.
pub open spec fn walk_message(detail: Seq<char>) -> Seq<char> {
    "Walkdir error: "@ + detail
}

impl Error {
    /// The words of what failed underneath, without the kind.
    pub open spec fn detail(self) -> Seq<char> {
        match self {
            Error::Io(detail) => detail@,
            Error::WalkDir(detail) => detail@,
        }
    }

    /// The message that is shown for this failure.
    pub open spec fn message_text(self) -> Seq<char> {
        match self {
            Error::Io(detail) => io_message(detail@),
            Error::WalkDir(detail) => walk_message(detail@),
        }
    }

    /// The message to show: the kind of failure, then its detail.
    pub fn message(&self) -> (text: String)
        ensures
            text@ == self.message_text(),
    {
        match self {
            Error::Io(detail) => {
                let mut text = "IO error: ".to_owned();
                text.append(detail.as_str());
                text
            },
            Error::WalkDir(detail) => {
                let mut text = "Walkdir error: ".to_owned();
                text.append(detail.as_str());
                text
            },
        }
    }
}

/// The message of a failure ends in its detail and is longer than it, so no
/// failure is shown as an empty message.
pub proof fn lemma_message_holds_detail(error: Error)
    ensures
        error.message_text().len() > error.detail().len(),
        error.message_text().skip(error.message_text().len() - error.detail().len())
            == error.detail(),
{
    reveal_strlit("IO error: ");
    reveal_strlit("Walkdir error: ");
    assert(error.message_text().skip(error.message_text().len() - error.detail().len())
        =~= error.detail());
}

} // verus!
