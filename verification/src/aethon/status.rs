//! The status codes of an Aethon response.

use crate::aethon::error::Error;
use crate::text::{str_eq, trim, trimmed};
use std::str::FromStr;
use vstd::prelude::*;
use vstd::std_specs::convert::TryFromSpecImpl;

verus! {

/// How a request went.
#[derive(Debug, PartialEq, Eq, Clone, Copy, Structural)]
pub enum Status {
    /// 200
    OK,
    /// 201
    Created,
    /// 400
    BadRequest,
    /// 401
    Unauthorized,
    /// 404
    NotFound,
    /// 405
    MethodNotAllowed,
    /// 418: the server refuses the attempt to brew coffee with a teapot.
    ImATeapot,
    /// 500
    InternalServerError,
}

impl Status {
    /// The number of this status.
    pub open spec fn code(self) -> u16 {
        match self {
            Status::OK => 200,
            Status::Created => 201,
            Status::BadRequest => 400,
            Status::Unauthorized => 401,
            Status::NotFound => 404,
            Status::MethodNotAllowed => 405,
            Status::ImATeapot => 418,
            Status::InternalServerError => 500,
        }
    }

    /// The status with the number `code`, if there is one.
    pub open spec fn of_code(code: u16) -> Option<Status> {
        if code == 200 {
            Some(Status::OK)
        } else if code == 201 {
            Some(Status::Created)
        } else if code == 400 {
            Some(Status::BadRequest)
        } else if code == 401 {
            Some(Status::Unauthorized)
        } else if code == 404 {
            Some(Status::NotFound)
        } else if code == 405 {
            Some(Status::MethodNotAllowed)
        } else if code == 418 {
            Some(Status::ImATeapot)
        } else if code == 500 {
            Some(Status::InternalServerError)
        } else {
            None
        }
    }

    /// The three digits that stand for this status in a start line.
    pub open spec fn text(self) -> Seq<char> {
        match self {
            Status::OK => "200"@,
            Status::Created => "201"@,
            Status::BadRequest => "400"@,
            Status::Unauthorized => "401"@,
            Status::NotFound => "404"@,
            Status::MethodNotAllowed => "405"@,
            Status::ImATeapot => "418"@,
            Status::InternalServerError => "500"@,
        }
    }

    /// The status that `s` stands for, where `s` is exactly the three digits
    /// of one.
    pub open spec fn of_digits(s: Seq<char>) -> Option<Status> {
        if s == "200"@ {
            Some(Status::OK)
        } else if s == "201"@ {
            Some(Status::Created)
        } else if s == "400"@ {
            Some(Status::BadRequest)
        } else if s == "401"@ {
            Some(Status::Unauthorized)
        } else if s == "404"@ {
            Some(Status::NotFound)
        } else if s == "405"@ {
            Some(Status::MethodNotAllowed)
        } else if s == "418"@ {
            Some(Status::ImATeapot)
        } else if s == "500"@ {
            Some(Status::InternalServerError)
        } else {
            None
        }
    }

    /// The status that `s` stands for: whitespace around the digits is
    /// ignored.
    pub open spec fn of_text(s: Seq<char>) -> Option<Status> {
        Status::of_digits(trimmed(s))
    }

    /// The three digits of this status.
    pub fn to_string(&self) -> (s: String)
        ensures
            s@ == self.text(),
    {
        match self {
            Status::OK => "200".to_owned(),
            Status::Created => "201".to_owned(),
            Status::BadRequest => "400".to_owned(),
            Status::Unauthorized => "401".to_owned(),
            Status::NotFound => "404".to_owned(),
            Status::MethodNotAllowed => "405".to_owned(),
            Status::ImATeapot => "418".to_owned(),
            Status::InternalServerError => "500".to_owned(),
        }
    }
}

/// The digits written by `to_string` are read back as the same status.
pub proof fn lemma_status_digits_round_trip(status: Status)
    ensures
        Status::of_digits(status.text()) == Some(status),
{
    reveal_strlit("200");
    reveal_strlit("201");
    reveal_strlit("400");
    reveal_strlit("401");
    reveal_strlit("404");
    reveal_strlit("405");
    reveal_strlit("418");
    reveal_strlit("500");
    let t = status.text();
    assert(t.len() == 3);
    if t == "200"@ {
        assert(t[0] == '2' && t[2] == '0');
    }
    if t == "201"@ {
        assert(t[0] == '2' && t[2] == '1');
    }
    if t == "400"@ {
        assert(t[0] == '4' && t[1] == '0' && t[2] == '0');
    }
    if t == "401"@ {
        assert(t[0] == '4' && t[1] == '0' && t[2] == '1');
    }
    if t == "404"@ {
        assert(t[0] == '4' && t[1] == '0' && t[2] == '4');
    }
    if t == "405"@ {
        assert(t[0] == '4' && t[1] == '0' && t[2] == '5');
    }
    if t == "418"@ {
        assert(t[0] == '4' && t[1] == '1');
    }
}

impl FromStr for Status {
    type Err = Error;

    fn from_str(s: &str) -> (r: Result<Self, Error>)
        ensures
            match r {
                Ok(status) => Status::of_text(s@) == Some(status),
                Err(e) => e == Error::WrongStatus && Status::of_text(s@) is None,
            },
    {
        let t = trim(s);
        let t = t.as_str();
        if str_eq(t, "200") {
            Ok(Status::OK)
        } else if str_eq(t, "201") {
            Ok(Status::Created)
        } else if str_eq(t, "400") {
            Ok(Status::BadRequest)
        } else if str_eq(t, "401") {
            Ok(Status::Unauthorized)
        } else if str_eq(t, "404") {
            Ok(Status::NotFound)
        } else if str_eq(t, "405") {
            Ok(Status::MethodNotAllowed)
        } else if str_eq(t, "418") {
            Ok(Status::ImATeapot)
        } else if str_eq(t, "500") {
            Ok(Status::InternalServerError)
        } else {
            Err(Error::WrongStatus)
        }
    }
}

impl TryFrom<u16> for Status {
    type Error = Error;

    fn try_from(value: u16) -> (r: Result<Self, Error>) {
        match value {
            200 => Ok(Status::OK),
            201 => Ok(Status::Created),
            400 => Ok(Status::BadRequest),
            401 => Ok(Status::Unauthorized),
            404 => Ok(Status::NotFound),
            405 => Ok(Status::MethodNotAllowed),
            418 => Ok(Status::ImATeapot),
            500 => Ok(Status::InternalServerError),
            _ => Err(Error::WrongStatus),
        }
    }
}

impl TryFromSpecImpl<u16> for Status {
    open spec fn obeys_try_from_spec() -> bool {
        true
    }

    open spec fn try_from_spec(value: u16) -> Result<Self, Error> {
        match Status::of_code(value) {
            Some(status) => Ok(status),
            None => Err(Error::WrongStatus),
        }
    }
}

} // verus!
