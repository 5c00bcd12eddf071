//! The errors of the library and of what runs around it.

use vstd::prelude::*;

verus! {

/// Main error type. Each variant carries the description of what went wrong.
#[derive(Debug)]
pub enum DyricsError {
    /// Configuration loading or parsing error.
    Config(String),
    /// Error of the playback source.
    Spotify(String),
    /// HTTP request error.
    Http(String),
    /// Error of the status sink.
    Discord(String),
    /// Authentication error.
    Auth(String),
    /// Lyrics parsing error.
    Lyrics(String),
}

impl DyricsError {
    /// The description that the error carries.
    pub open spec fn detail(&self) -> Seq<char> {
        match *self {
            DyricsError::Config(detail) => detail@,
            DyricsError::Spotify(detail) => detail@,
            DyricsError::Http(detail) => detail@,
            DyricsError::Discord(detail) => detail@,
            DyricsError::Auth(detail) => detail@,
            DyricsError::Lyrics(detail) => detail@,
        }
    }

    /// What the message of the error begins with.
    pub open spec fn heading(&self) -> Seq<char> {
        match *self {
            DyricsError::Config(_) => "Configuration error: "@,
            DyricsError::Spotify(_) => "Spotify error: "@,
            DyricsError::Http(_) => "HTTP error: "@,
            DyricsError::Discord(_) => "Discord error: "@,
            DyricsError::Auth(_) => "Authentication error: "@,
            DyricsError::Lyrics(_) => "Lyrics error: "@,
        }
    }

    /// Only an error of the configuration or of the authentication ends the
    /// process: every other error is reported and the work goes on.
    pub open spec fn fatal(&self) -> bool {
        *self is Config || *self is Auth
    }

    /// The message of the error: the heading of its kind, then its description.
    pub fn message(&self) -> (message: String)
        ensures
            message@ == self.heading() + self.detail(),
    {
        match self {
            DyricsError::Config(detail) => {
                let mut message = "Configuration error: ".to_owned();
                message.append(detail.as_str());
                message
            },
            DyricsError::Spotify(detail) => {
                let mut message = "Spotify error: ".to_owned();
                message.append(detail.as_str());
                message
            },
            DyricsError::Http(detail) => {
                let mut message = "HTTP error: ".to_owned();
                message.append(detail.as_str());
                message
            },
            DyricsError::Discord(detail) => {
                let mut message = "Discord error: ".to_owned();
                message.append(detail.as_str());
                message
            },
            DyricsError::Auth(detail) => {
                let mut message = "Authentication error: ".to_owned();
                message.append(detail.as_str());
                message
            },
            DyricsError::Lyrics(detail) => {
                let mut message = "Lyrics error: ".to_owned();
                message.append(detail.as_str());
                message
            },
        }
    }

    /// Whether the error ends the process: [`Self::fatal`].
    pub fn is_fatal(&self) -> (fatal: bool)
        ensures
            fatal == self.fatal(),
    {
        match self {
            DyricsError::Config(_) => true,
            DyricsError::Auth(_) => true,
            _ => false,
        }
    }
}

} // verus!
