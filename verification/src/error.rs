//! The library's error type.

use vstd::prelude::*;

verus! {

/// What can go wrong while reading, tagging or looking up a movie.
#[derive(Debug)]
pub enum Error {
    /// A file could not be read or written.
    Io(String),
    /// The tag of a file could not be read or written.
    Mp4(String),
    /// A request to a metadata service failed.
    Http(String),
    /// A service answered with something that is not the JSON it documents.
    Json(String),
    /// A picture could not be decoded or encoded.
    Image(String),
    /// A service answered, but with an error or with nothing usable.
    Provider { provider: String, message: String },
    /// No credential is set up for the named service.
    MissingApiKey(String),
    /// A file name gave no title.
    Naming(String),
    /// Anything else.
    Other(String),
}

/// `Ok`, or the library's error.
pub type Result<T> = std::result::Result<T, Error>;

/// The sentence that an error is shown as.
pub open spec fn error_text(e: Error) -> Seq<char> {
    match e {
        Error::Io(m) => "I/O error: "@ + m@,
        Error::Mp4(m) => "MP4 tagging error: "@ + m@,
        Error::Http(m) => "HTTP error: "@ + m@,
        Error::Json(m) => "JSON error: "@ + m@,
        Error::Image(m) => "image error: "@ + m@,
        Error::Provider { provider, message } => "provider `"@ + provider@ + "` error: "@
            + message@,
        Error::MissingApiKey(p) => "no API key configured for provider `"@ + p@ + "`"@,
        Error::Naming(m) => "could not parse filename: "@ + m@,
        Error::Other(m) => m@,
    }
}

impl Error {
    /// The sentence to show for this error.
    pub fn message(&self) -> (r: String)
        ensures
            r@ == error_text(*self),
    {
        match self {
            Error::Io(m) => "I/O error: ".to_string().concat(m.as_str()),
            Error::Mp4(m) => "MP4 tagging error: ".to_string().concat(m.as_str()),
            Error::Http(m) => "HTTP error: ".to_string().concat(m.as_str()),
            Error::Json(m) => "JSON error: ".to_string().concat(m.as_str()),
            Error::Image(m) => "image error: ".to_string().concat(m.as_str()),
            Error::Provider { provider, message } => "provider `".to_string().concat(
                provider.as_str(),
            ).concat("` error: ").concat(message.as_str()),
            Error::MissingApiKey(p) => "no API key configured for provider `".to_string().concat(
                p.as_str(),
            ).concat("`"),
            Error::Naming(m) => "could not parse filename: ".to_string().concat(m.as_str()),
            Error::Other(m) => m.clone(),
        }
    }
}

/// What an error says ends with the message that it carries, behind the words for its kind.
pub proof fn law_error_tells_its_message(m: String, provider: String)
    ensures
        error_text(Error::Io(m)) == "I/O error: "@ + m@,
        error_text(Error::Mp4(m)) == "MP4 tagging error: "@ + m@,
        error_text(Error::Http(m)) == "HTTP error: "@ + m@,
        error_text(Error::Json(m)) == "JSON error: "@ + m@,
        error_text(Error::Image(m)) == "image error: "@ + m@,
        error_text(Error::Naming(m)) == "could not parse filename: "@ + m@,
        error_text(Error::Other(m)) == m@,
        error_text(Error::MissingApiKey(m)) == "no API key configured for provider `"@ + m@ + "`"@,
        error_text(Error::Provider { provider, message: m }) == "provider `"@ + provider@
            + "` error: "@ + m@,
{
}

} // verus!
