//! The methods of an Aethon request.

use crate::aethon::error::Error;
use crate::text::str_eq;
use std::str::FromStr;
use vstd::prelude::*;

verus! {

/// What a request asks for.
#[allow(clippy::upper_case_acronyms)]
#[derive(Debug, PartialEq, Eq, Clone, Copy, Structural)]
pub enum Method {
    /// The `GET` method requests some content.
    GET,
    /// The `POST` method submits data to the server.
    POST,
    /// The `DELETE` method requests deletion of an item.
    DELETE,
}

impl Method {
    /// The word that stands for this method in a start line.
    pub open spec fn text(self) -> Seq<char> {
        match self {
            Method::GET => "GET"@,
            Method::POST => "POST"@,
            Method::DELETE => "DELETE"@,
        }
    }

    /// The method that a word stands for, if any. Case matters, and nothing
    /// is trimmed.
    pub open spec fn of_text(s: Seq<char>) -> Option<Method> {
        if s == "GET"@ {
            Some(Method::GET)
        } else if s == "POST"@ {
            Some(Method::POST)
        } else if s == "DELETE"@ {
            Some(Method::DELETE)
        } else {
            None
        }
    }

    /// The word that stands for this method.
    pub fn to_string(&self) -> (s: String)
        ensures
            s@ == self.text(),
    {
        match self {
            Method::GET => "GET".to_owned(),
            Method::POST => "POST".to_owned(),
            Method::DELETE => "DELETE".to_owned(),
        }
    }
}

/// A word written by `to_string` is read back as the same method.
pub proof fn lemma_method_text_round_trip(m: Method)
    ensures
        Method::of_text(m.text()) == Some(m),
{
    reveal_strlit("GET");
    reveal_strlit("POST");
    reveal_strlit("DELETE");
    if m == Method::POST {
        assert("POST"@.len() != "GET"@.len());
    }
    if m == Method::DELETE {
        assert("DELETE"@.len() != "GET"@.len());
        assert("DELETE"@.len() != "POST"@.len());
    }
}

impl FromStr for Method {
    type Err = Error;

    fn from_str(s: &str) -> (r: Result<Self, Error>)
        ensures
            match r {
                Ok(m) => Method::of_text(s@) == Some(m),
                Err(e) => e == Error::WrongMethod && Method::of_text(s@) is None,
            },
    {
        if str_eq(s, "GET") {
            Ok(Method::GET)
        } else if str_eq(s, "POST") {
            Ok(Method::POST)
        } else if str_eq(s, "DELETE") {
            Ok(Method::DELETE)
        } else {
            Err(Error::WrongMethod)
        }
    }
}

} // verus!
