//! Crate-wide error type. Every fallible path in hyprdesk resolves to one
//! of these variants; the daemon renders them into `err: ` replies and the
//! command line renders them for the user. Errors that come from the
//! operating system or from JSON decoding carry their rendered text.

use vstd::prelude::*;
use vstd::string::*;

verus! {

#[derive(Clone, Debug, PartialEq, Eq)]
pub enum Error {
    /// A required environment variable is missing; hyprdesk only runs
    /// inside a live Hyprland session.
    MissingEnv(String),
    /// Transport-level failure on a UNIX socket (its rendered text).
    Io(String),
    /// Hyprland answered a JSON query with something we could not parse.
    BadReply { query: String, source: String },
    /// Hyprland rejected a dispatched command or keyword.
    Rejected(String),
    /// A request line violated the client/daemon wire protocol.
    BadRequest(String),
    /// The daemon's control socket did not answer.
    DaemonUnreachable { path: String, source: String },
    /// Another daemon already serves this Hyprland instance.
    AlreadyRunning(String),
}

/// The user-facing rendering of an error.
pub open spec fn error_text(e: Error) -> Seq<char> {
    match e {
        Error::MissingEnv(var) => var@ + " is not set (not inside a Hyprland session?)"@,
        Error::Io(source) => "socket i/o failed: "@ + source@,
        Error::BadReply { query, source } => "unparsable reply to j/"@ + query@ + ": "@
            + source@,
        Error::Rejected(reply) => "hyprland rejected a command: "@ + reply@,
        Error::BadRequest(line) => "invalid request: "@ + line@,
        Error::DaemonUnreachable { path, source } => "cannot reach hyprdesk daemon at "@ + path@
            + " ("@ + source@ + "); is `hyprdesk daemon` running?"@,
        Error::AlreadyRunning(path) => "another hyprdesk daemon is already running on "@
            + path@,
    }
}

impl Error {
    /// Renders the error for a human.
    pub fn to_string(&self) -> (r: String)
        ensures
            r@ == error_text(*self),
    {
        match self {
            Error::MissingEnv(var) => {
                let mut s = var.clone();
                s.append(" is not set (not inside a Hyprland session?)");
                s
            },
            Error::Io(source) => {
                let mut s = String::from_str("socket i/o failed: ");
                s.append(source.as_str());
                s
            },
            Error::BadReply { query, source } => {
                let mut s = String::from_str("unparsable reply to j/");
                s.append(query.as_str());
                s.append(": ");
                s.append(source.as_str());
                s
            },
            Error::Rejected(reply) => {
                let mut s = String::from_str("hyprland rejected a command: ");
                s.append(reply.as_str());
                s
            },
            Error::BadRequest(line) => {
                let mut s = String::from_str("invalid request: ");
                s.append(line.as_str());
                s
            },
            Error::DaemonUnreachable { path, source } => {
                let mut s = String::from_str("cannot reach hyprdesk daemon at ");
                s.append(path.as_str());
                s.append(" (");
                s.append(source.as_str());
                s.append("); is `hyprdesk daemon` running?");
                s
            },
            Error::AlreadyRunning(path) => {
                let mut s = String::from_str("another hyprdesk daemon is already running on ");
                s.append(path.as_str());
                s
            },
        }
    }
}

} // verus!
