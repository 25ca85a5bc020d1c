//! What can go wrong.

use vstd::prelude::*;

verus! {

/// The kinds of I/O failure that are told apart.
#[derive(Debug, Clone, Copy, PartialEq, Eq, Structural)]
pub enum IoErrorKind {
    Interrupted,
    TimedOut,
    WriteZero,
    Other,
}

/// An I/O failure: the operating system's code where the system reported it,
/// the kind, and the text that describes it.
#[derive(Debug)]
pub struct IoFailure {
    pub raw_os_error: Option<i32>,
    pub kind: IoErrorKind,
    pub message: String,
}

impl IoFailure {
    /// A failure that the operating system knows nothing of.
    pub fn new(kind: IoErrorKind, message: &str) -> (failure: Self)
        ensures
            failure.is_custom(kind, message@),
            failure.raw_os_error is None,
            failure.kind == kind,
            failure.message@ == message@,
    {
        IoFailure { raw_os_error: None, kind, message: message.to_owned() }
    }

    /// Whether this failure has no system code, and the kind and text given.
    pub open spec fn is_custom(self, kind: IoErrorKind, message: Seq<char>) -> bool {
        &&& self.raw_os_error is None
        &&& self.kind == kind
        &&& self.message@ == message
    }
}

/// A failure of the sniffer, by the step at which it came.
#[derive(Debug)]
pub enum SnifferError {
    SocketOpen(IoFailure),
    SocketBind(IoFailure),
    FilterAttach(IoFailure),
    Recv(IoFailure),
    Inject(IoFailure),
    Other(String),
}

impl SnifferError {
    /// Whether this is `Other` with the text given.
    pub open spec fn is_other(self, message: Seq<char>) -> bool {
        self matches SnifferError::Other(text) && text@ == message
    }
}

/// A failure that the operating system knows nothing of has no code, and the kind
/// and the text that it was made with.
pub proof fn law_made_failure(kind: IoErrorKind, message: &str, failure: IoFailure)
    requires
        call_ensures(IoFailure::new, (kind, message), failure),
    ensures
        failure.raw_os_error is None,
        failure.kind == kind,
        failure.message@ == message@,
        forall|other: IoErrorKind, text: Seq<char>| #[trigger]
            failure.is_custom(other, text) <==> other == kind && text == message@,
{
}

/// A failure is told in a text exactly where it is of no particular step and has
/// that text.
pub proof fn law_told_failure(error: SnifferError, message: Seq<char>)
    ensures
        match error {
            SnifferError::Other(text) => error.is_other(message) <==> text@ == message,
            _ => !error.is_other(message),
        },
{
}

} // verus!
