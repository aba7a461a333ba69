//! Failures of the reporting pipeline.

use vstd::prelude::*;
use vstd::string::StringExecFns;

verus! {

/// The ways in which a run can fail.
#[derive(Clone, Copy, Debug, PartialEq, Eq, Structural)]
pub enum FailureKind {
    /// The remote service could not be reached.
    Transport,
    /// The remote service answered with a status outside 2xx.
    HttpStatus,
    /// An answer did not have the expected shape.
    Decode,
    /// A credential or a piece of state needed for a call is missing.
    Configuration,
}

/// A failure: its kind and a message for the person at the terminal.
pub struct Failure {
    pub kind: FailureKind,
    pub message: String,
}

/// The value of a [`Failure`].
pub struct FailureView {
    pub kind: FailureKind,
    pub message: Seq<char>,
}

impl View for Failure {
    type V = FailureView;

    open spec fn view(&self) -> FailureView {
        FailureView { kind: self.kind, message: self.message@ }
    }
}

impl Clone for Failure {
    fn clone(&self) -> (copy: Failure)
        ensures
            copy == *self,
    {
        Failure { kind: self.kind, message: self.message.clone() }
    }
}

impl Failure {
    /// A failure of `kind` with `message`.
    pub fn new(kind: FailureKind, message: &str) -> (failure: Failure)
        ensures
            failure@ == (FailureView { kind, message: message@ }),
    {
        Failure { kind, message: message.to_owned() }
    }

    /// The service `service` could not be reached; `detail` says why.
    pub fn transport(service: &str, detail: &str) -> (failure: Failure)
        ensures
            failure@ == (FailureView {
                kind: FailureKind::Transport,
                message: "Request to "@ + service@ + " failed: "@ + detail@,
            }),
    {
        let mut message = "Request to ".to_owned();
        message.append(service);
        message.append(" failed: ");
        message.append(detail);
        Failure { kind: FailureKind::Transport, message }
    }

    /// The service answered with a status outside 2xx; `detail` says which.
    pub fn status(detail: &str) -> (failure: Failure)
        ensures
            failure@ == (FailureView {
                kind: FailureKind::HttpStatus,
                message: "Incorrect response status: "@ + detail@,
            }),
    {
        Failure::with_detail(FailureKind::HttpStatus, "Incorrect response status: ", detail)
    }

    /// An answer of the service `service` could not be read; `detail` says
    /// why.
    pub fn decode(service: &str, detail: &str) -> (failure: Failure)
        ensures
            failure@ == (FailureView {
                kind: FailureKind::Decode,
                message: "Can not parse "@ + service@ + " response: "@ + detail@,
            }),
    {
        let mut message = "Can not parse ".to_owned();
        message.append(service);
        message.append(" response: ");
        message.append(detail);
        Failure { kind: FailureKind::Decode, message }
    }

    /// A failure of `kind` whose message is `lead` followed by `detail`.
    pub fn with_detail(kind: FailureKind, lead: &str, detail: &str) -> (failure: Failure)
        ensures
            failure@ == (FailureView { kind, message: lead@ + detail@ }),
    {
        let mut message = lead.to_owned();
        message.append(detail);
        Failure { kind, message }
    }
}

} // verus!
