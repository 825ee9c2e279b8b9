//! The failures the daemon can meet, each carrying the text of its cause.

use vstd::prelude::*;

verus! {

/// A failure, by the part of the system it came from.
#[derive(Debug)]
pub enum Error {
    /// Reading or writing a file failed.
    Io(String),
    /// The file watcher failed.
    FileWatch(String),
    /// A configuration or sources file is not valid YAML for its type.
    Yaml(String),
    /// The environment does not hold a valid configuration.
    Env(String),
    /// Fetching a document over HTTP failed.
    Http(String),
    /// An address is not a URL.
    Url(String),
    /// A fetched document is not a feed.
    Feed(String),
    /// The library database failed.
    Sqlite(String),
    /// Anything else.
    Custom(String),
}

impl Error {
    /// The text of the cause that the error carries.
    pub open spec fn detail(&self) -> Seq<char> {
        match self {
            Error::Io(m) => m@,
            Error::FileWatch(m) => m@,
            Error::Yaml(m) => m@,
            Error::Env(m) => m@,
            Error::Http(m) => m@,
            Error::Url(m) => m@,
            Error::Feed(m) => m@,
            Error::Sqlite(m) => m@,
            Error::Custom(m) => m@,
        }
    }

    /// What is written in front of the cause when the error is shown.
    pub open spec fn prefix(&self) -> Seq<char> {
        match self {
            Error::Io(_) => "I/O error: "@,
            Error::FileWatch(_) => "File watcher error: "@,
            Error::Yaml(_) => "YAML deserialization error: "@,
            Error::Env(_) => "Env deserialization error: "@,
            Error::Http(_) => "HTTP error: "@,
            Error::Url(_) => "URL parse error: "@,
            Error::Feed(_) => "Feed parse error: "@,
            Error::Sqlite(_) => "Sqlite error: "@,
            Error::Custom(_) => ""@,
        }
    }

    /// The error as one line of text: the prefix of its kind, then the cause.
    pub fn message(&self) -> (text: String)
        ensures
            text@ == self.prefix() + self.detail(),
    {
        let (prefix, detail) = match self {
            Error::Io(m) => ("I/O error: ", m),
            Error::FileWatch(m) => ("File watcher error: ", m),
            Error::Yaml(m) => ("YAML deserialization error: ", m),
            Error::Env(m) => ("Env deserialization error: ", m),
            Error::Http(m) => ("HTTP error: ", m),
            Error::Url(m) => ("URL parse error: ", m),
            Error::Feed(m) => ("Feed parse error: ", m),
            Error::Sqlite(m) => ("Sqlite error: ", m),
            Error::Custom(m) => ("", m),
        };
        String::from_str(prefix).concat(detail.as_str())
    }
}

} // verus!
