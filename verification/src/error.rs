//! Why a sandboxed run did not happen.
use vstd::prelude::*;
use vstd::string::StringExecFns;

verus! {

/// The kinds of system failure that decisions depend on.
#[derive(Debug, Clone, Copy, PartialEq, Eq, Structural)]
pub enum IoFailureKind {
    NotFound,
    PermissionDenied,
    AlreadyExists,
    InvalidInput,
    Unsupported,
    Other,
}

/// A failed system call: its kind, the number that the system gave and its text.
#[derive(Debug, PartialEq, Eq)]
pub struct IoFailure {
    pub kind: IoFailureKind,
    pub raw_os_error: Option<i32>,
    pub message: String,
}

impl View for IoFailure {
    type V = (IoFailureKind, Option<i32>, Seq<char>);

    open spec fn view(&self) -> (IoFailureKind, Option<i32>, Seq<char>) {
        (self.kind, self.raw_os_error, self.message@)
    }
}

impl Clone for IoFailure {
    fn clone(&self) -> (r: Self)
        ensures
            r@ == self@,
    {
        IoFailure {
            kind: self.kind,
            raw_os_error: self.raw_os_error,
            message: self.message.clone(),
        }
    }
}

impl IoFailure {
    /// The failure of the same kind with a text in front of its own; the system's number is not
    /// kept.
    pub fn within(&self, context: &str) -> (r: Self)
        ensures
            r@ == (self.kind, None::<i32>, context@ + self.message@),
    {
        IoFailure {
            kind: self.kind,
            raw_os_error: None,
            message: context.to_owned().concat(self.message.as_str()),
        }
    }
}

/// Why a sandboxed run did not happen.
#[derive(Debug, PartialEq, Eq)]
pub enum SandboxError {
    /// The request or the policy is not acceptable.
    InvalidRequest(String),
    /// The sandbox refused to run the command.
    Denied(String),
    /// The state of the sandbox could not be verified.
    AuditFailed(String),
    /// The platform cannot enforce what was asked for.
    Unavailable(String),
    /// A Windows facility failed.
    Windows(String),
    /// A system call failed.
    Io(IoFailure),
}

/// The mathematical value of an error.
pub enum ErrorView {
    InvalidRequest(Seq<char>),
    Denied(Seq<char>),
    AuditFailed(Seq<char>),
    Unavailable(Seq<char>),
    Windows(Seq<char>),
    Io(IoFailureKind, Option<i32>, Seq<char>),
}

impl View for SandboxError {
    type V = ErrorView;

    open spec fn view(&self) -> ErrorView {
        match *self {
            SandboxError::InvalidRequest(m) => ErrorView::InvalidRequest(m@),
            SandboxError::Denied(m) => ErrorView::Denied(m@),
            SandboxError::AuditFailed(m) => ErrorView::AuditFailed(m@),
            SandboxError::Unavailable(m) => ErrorView::Unavailable(m@),
            SandboxError::Windows(m) => ErrorView::Windows(m@),
            SandboxError::Io(e) => ErrorView::Io(e.kind, e.raw_os_error, e.message@),
        }
    }
}

/// The text of an error.
pub open spec fn error_text(e: ErrorView) -> Seq<char> {
    match e {
        ErrorView::InvalidRequest(m) => "invalid sandbox request: "@ + m,
        ErrorView::Denied(m) => "sandbox denied execution: "@ + m,
        ErrorView::AuditFailed(m) => "sandbox audit failed: "@ + m,
        ErrorView::Unavailable(m) => "sandbox is unavailable on this platform: "@ + m,
        ErrorView::Windows(m) => "windows sandbox error: "@ + m,
        ErrorView::Io(_, _, m) => "io error: "@ + m,
    }
}

impl SandboxError {
    /// The text of this error: what went wrong and the details.
    pub fn message(&self) -> (r: String)
        ensures
            r@ == error_text(self@),
    {
        match self {
            SandboxError::InvalidRequest(m) => "invalid sandbox request: ".to_owned().concat(
                m.as_str(),
            ),
            SandboxError::Denied(m) => "sandbox denied execution: ".to_owned().concat(m.as_str()),
            SandboxError::AuditFailed(m) => "sandbox audit failed: ".to_owned().concat(m.as_str()),
            SandboxError::Unavailable(
                m,
            ) => "sandbox is unavailable on this platform: ".to_owned().concat(m.as_str()),
            SandboxError::Windows(m) => "windows sandbox error: ".to_owned().concat(m.as_str()),
            SandboxError::Io(e) => "io error: ".to_owned().concat(e.message.as_str()),
        }
    }
}

} // verus!
