//! The error type returned across the crate.

use vstd::prelude::*;
use vstd::string::*;

verus! {

/// What went wrong.
#[derive(Debug)]
pub enum Error {
    Io(String),
    Codec(String),
    Crypto(String),
    Protocol(String),
    Auth(String),
    Transport(String),
    Config(String),
    /// The peer closed the channel cleanly. Loops treat this as "stop".
    Closed,
    /// A combination that is not supported.
    NotImplemented(&'static str),
}

/// An error with its message as a sequence of characters.
pub enum Failure {
    Io(Seq<char>),
    Codec(Seq<char>),
    Crypto(Seq<char>),
    Protocol(Seq<char>),
    Auth(Seq<char>),
    Transport(Seq<char>),
    Config(Seq<char>),
    Closed,
    NotImplemented(Seq<char>),
}

impl View for Error {
    type V = Failure;

    open spec fn view(&self) -> Failure {
        match self {
            Error::Io(m) => Failure::Io(m@),
            Error::Codec(m) => Failure::Codec(m@),
            Error::Crypto(m) => Failure::Crypto(m@),
            Error::Protocol(m) => Failure::Protocol(m@),
            Error::Auth(m) => Failure::Auth(m@),
            Error::Transport(m) => Failure::Transport(m@),
            Error::Config(m) => Failure::Config(m@),
            Error::Closed => Failure::Closed,
            Error::NotImplemented(m) => Failure::NotImplemented(m@),
        }
    }
}

/// What an error says, as shown to a user.
pub open spec fn failure_text(f: Failure) -> Seq<char> {
    match f {
        Failure::Io(m) => "io: "@ + m,
        Failure::Codec(m) => "codec: "@ + m,
        Failure::Crypto(m) => "crypto: "@ + m,
        Failure::Protocol(m) => "protocol: "@ + m,
        Failure::Auth(m) => "auth: "@ + m,
        Failure::Transport(m) => "transport: "@ + m,
        Failure::Config(m) => "config: "@ + m,
        Failure::Closed => "connection closed"@,
        Failure::NotImplemented(m) => "not implemented: "@ + m,
    }
}

impl Error {
    /// What the error says, as shown to a user.
    pub fn to_text(&self) -> (r: String)
        ensures
            r@ == failure_text(self@),
    {
        match self {
            Error::Io(m) => "io: ".to_owned().concat(m.as_str()),
            Error::Codec(m) => "codec: ".to_owned().concat(m.as_str()),
            Error::Crypto(m) => "crypto: ".to_owned().concat(m.as_str()),
            Error::Protocol(m) => "protocol: ".to_owned().concat(m.as_str()),
            Error::Auth(m) => "auth: ".to_owned().concat(m.as_str()),
            Error::Transport(m) => "transport: ".to_owned().concat(m.as_str()),
            Error::Config(m) => "config: ".to_owned().concat(m.as_str()),
            Error::Closed => "connection closed".to_owned(),
            Error::NotImplemented(m) => "not implemented: ".to_owned().concat(m),
        }
    }
}

/// Whether `r` succeeds exactly when `want` does, and fails as it says.
pub open spec fn fails_as<T, U>(r: Result<T, Error>, want: Result<U, Failure>) -> bool {
    match want {
        Ok(_) => r is Ok,
        Err(f) => r is Err && r->Err_0@ == f,
    }
}

/// An error is told with its kind before it.
pub proof fn law_error_texts(m: Seq<char>)
    ensures
        failure_text(Failure::Io(m)) == "io: "@ + m,
        failure_text(Failure::Codec(m)) == "codec: "@ + m,
        failure_text(Failure::Crypto(m)) == "crypto: "@ + m,
        failure_text(Failure::Protocol(m)) == "protocol: "@ + m,
        failure_text(Failure::Auth(m)) == "auth: "@ + m,
        failure_text(Failure::Transport(m)) == "transport: "@ + m,
        failure_text(Failure::Config(m)) == "config: "@ + m,
        failure_text(Failure::Closed) == "connection closed"@,
        failure_text(Failure::NotImplemented(m)) == "not implemented: "@ + m,
{
}

}
