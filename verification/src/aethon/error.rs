//! What can be wrong with an Aethon packet.

use vstd::prelude::*;
use vstd::string::StringExecFns;

verus! {

/// What is wrong with a packet or with one of its fields.
#[derive(Debug, PartialEq)]
pub enum Error {
    WrongMethod,
    WrongStatus,
    ParseError(&'static str),
}

/// What an error says, with its message as a sequence of characters.
pub enum Fault {
    WrongMethod,
    WrongStatus,
    Parse(Seq<char>),
}

impl View for Error {
    type V = Fault;

    open spec fn view(&self) -> Fault {
        match self {
            Error::WrongMethod => Fault::WrongMethod,
            Error::WrongStatus => Fault::WrongStatus,
            Error::ParseError(message) => Fault::Parse(message@),
        }
    }
}

/// The sentence that describes a fault.
pub open spec fn description(fault: Fault) -> Seq<char> {
    match fault {
        Fault::WrongMethod => "The request METHOD is invalid"@,
        Fault::WrongStatus => "The response STATUS is invalid"@,
        Fault::Parse(message) => "Failed to parse the Aethon packet: "@ + message,
    }
}

impl Error {
    /// The sentence that describes this error.
    pub fn to_string(&self) -> (s: String)
        ensures
            s@ == description(self@),
    {
        match self {
            Error::WrongMethod => "The request METHOD is invalid".to_owned(),
            Error::WrongStatus => "The response STATUS is invalid".to_owned(),
            Error::ParseError(message) => {
                "Failed to parse the Aethon packet: ".to_owned().concat(message)
            },
        }
    }
}

} // verus!
