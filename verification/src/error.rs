//! Planning errors.

#[allow(unused_imports)]
use vstd::prelude::*;

verus! {

/// Why a statement could not be planned. The message is the one the user sees.
#[derive(Debug, Clone)]
pub enum Error {
    Sql(String),
}

impl Error {
    /// The message text.
    pub open spec fn text(self) -> Seq<char> {
        match self {
            Error::Sql(m) => m@,
        }
    }

    /// The message text.
    pub fn message(&self) -> (r: &str)
        ensures
            r@ == self.text(),
    {
        match self {
            Error::Sql(m) => m.as_str(),
        }
    }

    /// An error with the given message.
    pub fn sql(message: &str) -> (r: Error)
        ensures
            r.text() == message@,
    {
        Error::Sql(message.to_owned())
    }

    /// A second copy of this error.
    pub fn dup(&self) -> (r: Error)
        ensures
            r == *self,
    {
        match self {
            Error::Sql(m) => Error::Sql(m.clone()),
        }
    }
}

/// Whether a result agrees with what it should be: on the value, or on the message.
pub open spec fn agrees<T>(r: Result<Vec<T>, Error>, want: Result<Seq<T>, Seq<char>>) -> bool {
    match (r, want) {
        (Ok(v), Ok(s)) => v@ == s,
        (Err(e), Err(text)) => e.text() == text,
        _ => false,
    }
}

/// The message of a result, if it is one.
pub open spec fn error_of<T>(r: Result<T, Seq<char>>) -> Option<Seq<char>> {
    match r {
        Err(text) => Some(text),
        Ok(_) => None,
    }
}

/// The first message of two.
pub open spec fn first_error(a: Option<Seq<char>>, b: Option<Seq<char>>) -> Option<Seq<char>> {
    match a {
        Some(text) => Some(text),
        None => b,
    }
}

/// The message of an outcome, if it failed.
pub open spec fn failure<T>(r: Result<T, Error>) -> Option<Seq<char>> {
    match r {
        Err(e) => Some(e.text()),
        Ok(_) => None,
    }
}

} // verus!
