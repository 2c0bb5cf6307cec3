//! Error types of the conversion library.

use vstd::prelude::*;

verus! {

/// `std::io::Error`, carried through opaque.
#[verifier::external_type_specification]
#[verifier::external_body]
pub struct ExIoError(std::io::Error);

/// `url::ParseError`, carried through opaque.
#[verifier::external_type_specification]
#[verifier::external_body]
pub struct ExUrlParseError(url::ParseError);

/// Errors that can occur during HTML to Markdown conversion.
#[derive(Debug)]
#[non_exhaustive]
pub enum Error {
    /// I/O error while reading or writing.
    Io(std::io::Error),
    /// HTML parsing failed.
    Parse(String),
    /// URL parsing or resolution failed.
    Url(url::ParseError),
    /// Invalid CSS selector.
    Selector(String),
    /// Configuration loading or validation failed.
    Config(String),
    /// A configured limit was exceeded.
    LimitExceeded(String),
    /// Catch-all for unexpected conditions.
    Other(String),
}

/// The text of an I/O error (`Display`), which depends on the system.
#[verifier::external_body]
pub(crate) fn io_error_text(e: &std::io::Error) -> (r: String) {
    e.to_string()
}

/// The text of a URL parse error (`Display`).
#[verifier::external_body]
fn url_error_text(e: &url::ParseError) -> (r: String) {
    e.to_string()
}

pub(crate) fn prefixed(prefix: &str, m: &str) -> (r: String)
    ensures
        r@ == prefix@ + m@,
{
    let mut r = prefix.to_owned();
    crate::text::push_str(&mut r, m);
    r
}

/// The message of an error whose detail is text of its own: a prefix naming
/// its kind, then the detail (I/O and URL errors carry an outside error).
pub open spec fn error_message(e: Error) -> Seq<char> {
    match e {
        Error::Parse(m) => "HTML parse error: "@ + m@,
        Error::Selector(m) => "selector error: "@ + m@,
        Error::Config(m) => "configuration error: "@ + m@,
        Error::LimitExceeded(m) => "limit exceeded: "@ + m@,
        Error::Other(m) => m@,
        Error::Io(_) => "I/O error: "@,
        Error::Url(_) => "URL error: "@,
    }
}

impl Error {
    /// The error's message: a prefix naming its kind, then its detail.
    pub fn message(&self) -> (r: String)
        ensures
            !(self is Io) && !(self is Url) ==> r@ == error_message(*self),
            self is Io ==> r@.len() >= 11 && r@.take(11) == "I/O error: "@,
            self is Url ==> r@.len() >= 11 && r@.take(11) == "URL error: "@,
    {
        match self {
            Error::Io(e) => {
                let r = prefixed("I/O error: ", io_error_text(e).as_str());
                proof {
                    reveal_strlit("I/O error: ");
                    assert(r@.take(11) =~= "I/O error: "@);
                }
                r
            },
            Error::Parse(m) => prefixed("HTML parse error: ", m.as_str()),
            Error::Url(e) => {
                let r = prefixed("URL error: ", url_error_text(e).as_str());
                proof {
                    reveal_strlit("URL error: ");
                    assert(r@.take(11) =~= "URL error: "@);
                }
                r
            },
            Error::Selector(m) => prefixed("selector error: ", m.as_str()),
            Error::Config(m) => prefixed("configuration error: ", m.as_str()),
            Error::LimitExceeded(m) => prefixed("limit exceeded: ", m.as_str()),
            Error::Other(m) => m.clone(),
        }
    }
}

/// Result type alias used throughout the library.
pub type Result<T> = std::result::Result<T, Error>;

} // verus!
