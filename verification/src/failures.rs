//! What is reported when a run cannot go on.

use vstd::prelude::*;
use vstd::string::StringExecFns;

verus! {

#[derive(Debug, PartialEq, Eq)]
enum FailureType {
    File { file_name: String, description: String, cause: String },
    Env { operation: String, cause: String },
}

/// A failure on one file, or of an operation that concerns no single file.
#[derive(Debug, PartialEq, Eq)]
pub struct Failure {
    fail_type: FailureType,
}

/// A [`Failure`] in contracts. A cause is the text that follows the
/// description or the operation when the failure is shown: empty where
/// none is known.
pub enum FailureView {
    File { file_name: Seq<char>, description: Seq<char>, cause: Seq<char> },
    Env { operation: Seq<char>, cause: Seq<char> },
}

/// The text that introduces the cause `cause` of a failure.
pub open spec fn caused_by(cause: Seq<char>) -> Seq<char> {
    "\n\tCause: "@ + cause
}

impl FailureView {
    /// The failure as it is shown.
    pub open spec fn message(self) -> Seq<char> {
        match self {
            FailureView::File { file_name, description, cause } => "\tFile: "@ + file_name
                + "\n\tDescription: "@ + description + cause,
            FailureView::Env { operation, cause } => "\tOperation: "@ + operation + cause,
        }
    }
}

impl View for Failure {
    type V = FailureView;

    closed spec fn view(&self) -> FailureView {
        match self.fail_type {
            FailureType::File { file_name, description, cause } => FailureView::File {
                file_name: file_name@,
                description: description@,
                cause: cause@,
            },
            FailureType::Env { operation, cause } => FailureView::Env {
                operation: operation@,
                cause: cause@,
            },
        }
    }
}

/// `cause` behind the words that introduce a cause.
fn cause_text(cause: &str) -> (r: String)
    ensures
        r@ == caused_by(cause@),
{
    let mut text = String::from_str("\n\tCause: ");
    text.append(cause);
    text
}

impl Failure {
    /// The failure of `operation`, for the reason that `cause` gives.
    pub fn env_failure_caused(operation: String, cause: &str) -> (r: Failure)
        ensures
            r@ == (FailureView::Env { operation: operation@, cause: caused_by(cause@) }),
    {
        Failure { fail_type: FailureType::Env { operation, cause: cause_text(cause) } }
    }

    /// A failure on the file `file_name`, with no cause known.
    pub fn file_failure(file_name: String, description: String) -> (r: Failure)
        ensures
            r@ == (FailureView::File {
                file_name: file_name@,
                description: description@,
                cause: Seq::empty(),
            }),
    {
        Failure { fail_type: FailureType::File { file_name, description, cause: String::new() } }
    }

    /// A failure on the file `file_name`, for the reason that `cause` gives.
    pub fn file_failure_caused(file_name: String, description: String, cause: &str) -> (r: Failure)
        ensures
            r@ == (FailureView::File {
                file_name: file_name@,
                description: description@,
                cause: caused_by(cause@),
            }),
    {
        Failure {
            fail_type: FailureType::File { file_name, description, cause: cause_text(cause) },
        }
    }

    /// A failure on the file `file_name`, followed by `cause` as it stands.
    pub fn file_failure_strcause(file_name: String, description: String, cause: String) -> (r:
        Failure)
        ensures
            r@ == (FailureView::File {
                file_name: file_name@,
                description: description@,
                cause: cause@,
            }),
    {
        Failure { fail_type: FailureType::File { file_name, description, cause } }
    }

    /// The failure as it is shown to the user.
    pub fn message(&self) -> (r: String)
        ensures
            r@ == self@.message(),
    {
        match &self.fail_type {
            FailureType::File { file_name, description, cause } => {
                let mut text = String::from_str("\tFile: ");
                text.append(file_name.as_str());
                text.append("\n\tDescription: ");
                text.append(description.as_str());
                text.append(cause.as_str());
                text
            },
            FailureType::Env { operation, cause } => {
                let mut text = String::from_str("\tOperation: ");
                text.append(operation.as_str());
                text.append(cause.as_str());
                text
            },
        }
    }
}

} // verus!
