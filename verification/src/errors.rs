use vstd::prelude::*;

verus! {

/// Failure taxonomy for server lifecycle and protocol operations.
///
/// Every operation of the lifecycle manager reports one of these to its
/// caller; none of them is allowed to take the host process down.
#[derive(Debug)]
pub enum LspError {
    /// No server descriptor matches the file or workspace.
    ResolutionError,
    /// A descriptor matched but none of the executable resolution
    /// strategies found a binary.
    BinaryNotFound { server_name: String },
    /// OS-level process creation failed.
    SpawnError,
    /// The process started but the initialize round trip failed.
    HandshakeError,
    /// Malformed frame, unmatched correlation id, or a server-side error.
    ProtocolError,
    /// A request was issued for a file with no running instance.
    NoActiveInstance,
}

impl LspError {
    /// Actionable text for the user; names the missing binary and a
    /// remediation command when resolution found no executable.
    pub fn message(&self) -> (r: String)
        ensures
            (match self {
                LspError::ResolutionError => r@ == "no language server matches this file or workspace"@,
                LspError::BinaryNotFound { server_name } => r@
                    == "language server '"@ + server_name@
                    + "' not found; install it with: bun add -g typescript-language-server"@,
                LspError::SpawnError => r@ == "failed to spawn the language server process"@,
                LspError::HandshakeError => r@ == "language server failed to initialize"@,
                LspError::ProtocolError => r@ == "malformed or unexpected language server message"@,
                LspError::NoActiveInstance => r@ == "no running language server instance for this file"@,
            }),
    {
        match self {
            LspError::ResolutionError => String::from_str(
                "no language server matches this file or workspace",
            ),
            LspError::BinaryNotFound { server_name } => {
                let mut r = String::from_str("language server '");
                r.append(server_name.as_str());
                r.append("' not found; install it with: bun add -g typescript-language-server");
                r
            },
            LspError::SpawnError => String::from_str("failed to spawn the language server process"),
            LspError::HandshakeError => String::from_str("language server failed to initialize"),
            LspError::ProtocolError => String::from_str(
                "malformed or unexpected language server message",
            ),
            LspError::NoActiveInstance => String::from_str(
                "no running language server instance for this file",
            ),
        }
    }
}

} // verus!
