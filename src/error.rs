use vstd::prelude::*;

verus! {

/// Category of a failure; each category maps to its own process exit status.
#[derive(Debug, Clone, Copy, PartialEq, Eq, Structural)]
pub enum ErrorKind {
    Config,
    Network,
    Feed,
}

#[derive(Debug, Clone)]
pub struct AppError {
    pub kind: ErrorKind,
    pub message: String,
}

pub open spec fn exit_code_of(kind: ErrorKind) -> i32 {
    match kind {
        ErrorKind::Config => 2,
        ErrorKind::Network => 3,
        ErrorKind::Feed => 4,
    }
}

impl AppError {
    pub fn config(message: String) -> (r: Self)
        ensures
            r.kind == ErrorKind::Config,
            r.message@ == message@,
    {
        AppError { kind: ErrorKind::Config, message }
    }

    pub fn network(message: String) -> (r: Self)
        ensures
            r.kind == ErrorKind::Network,
            r.message@ == message@,
    {
        AppError { kind: ErrorKind::Network, message }
    }

    pub fn feed(message: String) -> (r: Self)
        ensures
            r.kind == ErrorKind::Feed,
            r.message@ == message@,
    {
        AppError { kind: ErrorKind::Feed, message }
    }

    /// Process exit status for this error: 2 for configuration, 3 for network, 4 for feed data.
    pub fn exit_code(&self) -> (r: i32)
        ensures
            r == exit_code_of(self.kind),
    {
        match self.kind {
            ErrorKind::Config => 2,
            ErrorKind::Network => 3,
            ErrorKind::Feed => 4,
        }
    }
}

} // verus!
