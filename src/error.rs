use vstd::prelude::*;

verus! {

/// Failure kinds of the engine; each carries a descriptive message where one exists.
pub enum EngineError {
    /// Network, DNS or TLS failure while fetching, probing or downloading.
    Transport(String),
    /// The manifest, or metadata derived from it, is malformed.
    Format(String),
    /// Creating, writing or reading a file failed.
    Filesystem(String),
    /// The user aborted the transfer.
    Cancelled,
    /// The caller supplied an id or key that is not known.
    Unrecognized(String),
}

impl EngineError {
    /// The single descriptive message shown to the user.
    pub fn message(&self) -> (r: String)
        ensures
            match self {
                EngineError::Transport(m) => r@ == m@,
                EngineError::Format(m) => r@ == m@,
                EngineError::Filesystem(m) => r@ == m@,
                EngineError::Cancelled => r@ == "Download canceled"@,
                EngineError::Unrecognized(m) => r@ == m@,
            },
    {
        match self {
            EngineError::Transport(m) => m.clone(),
            EngineError::Format(m) => m.clone(),
            EngineError::Filesystem(m) => m.clone(),
            EngineError::Cancelled => String::from_str("Download canceled"),
            EngineError::Unrecognized(m) => m.clone(),
        }
    }
}

} // verus!
