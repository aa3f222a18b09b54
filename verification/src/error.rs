use vstd::prelude::*;

verus! {

/// Failures that decoding a ref advertisement or analyzing a repository can
/// report. Transport-level variants (`Uri`, `Hyper`, `UnexpectedStatusCode`,
/// `Io`) are produced by the code that performs the network requests; the
/// decoder itself produces only the text, integer, line-length, line-syntax
/// and end-of-payload variants.
#[derive(Debug)]
pub enum Error {
    /// A length prefix was not valid UTF-8 text.
    Utf8,
    /// A payload line was not valid UTF-8 text.
    FromUtf8,
    /// A length prefix was text but not hexadecimal; carries the prefix.
    ParseInt(String),
    /// A nonzero length prefix was smaller than the prefix itself.
    InvalidLineLength,
    /// A line did not follow the expected grammar; carries the line.
    InvalidLine(String),
    /// The stream ended before both protocol header lines were consumed.
    UnexpectedEndOfPayload,
    /// A repository URL could not be parsed.
    Uri,
    /// The HTTP request itself failed.
    Hyper,
    /// The ref advertisement request got a non-success status code.
    UnexpectedStatusCode(u16),
    /// An input/output operation failed.
    Io,
}

} // verus!
