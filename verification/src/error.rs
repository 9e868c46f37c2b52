use vstd::prelude::*;

verus! {

/// The error taxonomy of the ingest pipeline: transport, server, tool and
/// cancellation failures each keep their own kind so that callers can react
/// per kind.
#[derive(Debug)]
pub enum AppError {
    Io(String),
    InvalidInput(String),
    NotFound(String),
    Http(String),
    Api { status: u16, message: String },
    Ffmpeg(String),
    Cancelled,
    Other(String),
}

impl AppError {
    /// True exactly for the cancellation error, which the orchestrator
    /// treats specially: state is persisted and kept for resume.
    pub fn is_cancelled(&self) -> (r: bool)
        ensures
            r == (self is Cancelled),
    {
        match self {
            AppError::Cancelled => true,
            _ => false,
        }
    }
}

} // verus!
