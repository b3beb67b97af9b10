//! What can be wrong with markup.

use vstd::prelude::*;

verus! {

/// What is wrong with a piece of markup.
#[derive(Debug, PartialEq)]
pub enum HTMLError {
    UnexpectedEndOfInput,
    InvalidSyntax,
    InvalidTag,
    Other(String),
}

/// What an error says, with its message as a sequence of characters.
pub enum HTMLFault {
    UnexpectedEndOfInput,
    InvalidSyntax,
    InvalidTag,
    Other(Seq<char>),
}

impl View for HTMLError {
    type V = HTMLFault;

    open spec fn view(&self) -> HTMLFault {
        match self {
            HTMLError::UnexpectedEndOfInput => HTMLFault::UnexpectedEndOfInput,
            HTMLError::InvalidSyntax => HTMLFault::InvalidSyntax,
            HTMLError::InvalidTag => HTMLFault::InvalidTag,
            HTMLError::Other(message) => HTMLFault::Other(message@),
        }
    }
}

/// The sentence that describes a fault.
pub open spec fn description(fault: HTMLFault) -> Seq<char> {
    match fault {
        HTMLFault::UnexpectedEndOfInput => "Unexpected End Of Input"@,
        HTMLFault::InvalidSyntax => "Invalid Syntax"@,
        HTMLFault::InvalidTag => "Invalid Tag Name"@,
        HTMLFault::Other(message) => message,
    }
}

impl HTMLError {
    /// The sentence that describes this error.
    pub fn to_string(&self) -> (s: String)
        ensures
            s@ == description(self@),
    {
        match self {
            HTMLError::UnexpectedEndOfInput => "Unexpected End Of Input".to_owned(),
            HTMLError::InvalidSyntax => "Invalid Syntax".to_owned(),
            HTMLError::InvalidTag => "Invalid Tag Name".to_owned(),
            HTMLError::Other(message) => message.clone(),
        }
    }
}

} // verus!
