use vstd::prelude::*;

verus! {

/// The scheme prefix under which a document or workspace path travels on
/// the wire.
pub fn file_uri(path: &str) -> (r: String)
    ensures
        r@ == "file://"@ + path@,
{
    let mut r = String::from_str("file://");
    r.append(path);
    r
}

/// Parameters of the initialize request: the workspace root the server is
/// asked to serve and the host process id.
pub struct InitializeParams {
    /// Id of the process the server belongs to.
    pub process_id: u32,
    /// The workspace root, as a uri.
    pub root_uri: String,
}

impl InitializeParams {
    /// The wire method name of the initialize request.
    pub fn method(&self) -> (r: String)
        ensures
            r@ == "initialize"@,
    {
        String::from_str("initialize")
    }
}

/// The wire method name of the notification that closes the handshake.
pub fn initialized_method() -> (r: String)
    ensures
        r@ == "initialized"@,
{
    String::from_str("initialized")
}

/// Parameters of the document-open notification: the whole document and
/// its protocol language identifier, at the first version.
pub struct DidOpenParams {
    /// The document, as a uri.
    pub uri: String,
    /// Protocol language identifier, derived from the file's extension.
    pub language_id: String,
    /// Version the document opens at.
    pub version: i32,
    /// The whole document text.
    pub text: String,
}

impl DidOpenParams {
    /// The wire method name of the document-open notification.
    pub fn method(&self) -> (r: String)
        ensures
            r@ == "textDocument/didOpen"@,
    {
        String::from_str("textDocument/didOpen")
    }
}

/// Parameters of the document-change notification. Documents are
/// synchronized by full replacement: one change carrying the whole text
/// and no ranges.
pub struct DidChangeParams {
    /// The document, as a uri.
    pub uri: String,
    /// The caller's version number for this text.
    pub version: i32,
    /// The whole document text; it replaces everything.
    pub full_text: String,
}

impl DidChangeParams {
    /// The wire method name of the document-change notification.
    pub fn method(&self) -> (r: String)
        ensures
            r@ == "textDocument/didChange"@,
    {
        String::from_str("textDocument/didChange")
    }
}

/// Parameters of the document-close notification.
pub struct DidCloseParams {
    /// The document, as a uri.
    pub uri: String,
}

impl DidCloseParams {
    /// The wire method name of the document-close notification.
    pub fn method(&self) -> (r: String)
        ensures
            r@ == "textDocument/didClose"@,
    {
        String::from_str("textDocument/didClose")
    }
}

/// Parameters of a completion request: a document position with zero-based
/// line and character offsets.
pub struct CompletionRequestParams {
    /// The document, as a uri.
    pub uri: String,
    /// Zero-based line.
    pub line: u32,
    /// Zero-based character offset in the line.
    pub character: u32,
}

impl CompletionRequestParams {
    /// The wire method name of the completion request.
    pub fn method(&self) -> (r: String)
        ensures
            r@ == "textDocument/completion"@,
    {
        String::from_str("textDocument/completion")
    }
}

/// Parameters of a hover request: a document position with zero-based
/// line and character offsets.
pub struct HoverRequestParams {
    /// The document, as a uri.
    pub uri: String,
    /// Zero-based line.
    pub line: u32,
    /// Zero-based character offset in the line.
    pub character: u32,
}

impl HoverRequestParams {
    /// The wire method name of the hover request.
    pub fn method(&self) -> (r: String)
        ensures
            r@ == "textDocument/hover"@,
    {
        String::from_str("textDocument/hover")
    }
}

} // verus!
