//! Why a message could not be read or written.
use vstd::prelude::*;

use crate::text::{signed_decimal, signed_decimal_text};

verus! {

/// What is wrong with the data of a message.
#[derive(Debug)]
pub enum LoadError {
    /// A value is not valid UTF-8; the text says where.
    NotUtf8(String),
    /// A field of the repeating group has a tag that does not belong there.
    UnexpectedTag,
    /// A message to be written holds a pair of values.
    PairValue,
}

/// Why a message could not be read or written.
#[derive(Debug)]
pub enum ParsingError {
    NotValidVal,
    NotCompleteSnapshot(i32),
    FailToLoad(LoadError),
}

/// The model of a `LoadError`.
pub enum LoadFault {
    NotUtf8(Seq<char>),
    UnexpectedTag,
    PairValue,
}

/// The model of a `ParsingError`.
pub enum ParsingFault {
    NotValidVal,
    NotCompleteSnapshot(i32),
    FailToLoad(LoadFault),
}

impl View for LoadError {
    type V = LoadFault;

    open spec fn view(&self) -> LoadFault {
        match *self {
            LoadError::NotUtf8(text) => LoadFault::NotUtf8(text@),
            LoadError::UnexpectedTag => LoadFault::UnexpectedTag,
            LoadError::PairValue => LoadFault::PairValue,
        }
    }
}

impl View for ParsingError {
    type V = ParsingFault;

    open spec fn view(&self) -> ParsingFault {
        match *self {
            ParsingError::NotValidVal => ParsingFault::NotValidVal,
            ParsingError::NotCompleteSnapshot(remaining) => ParsingFault::NotCompleteSnapshot(remaining),
            ParsingError::FailToLoad(source) => ParsingFault::FailToLoad(source@),
        }
    }
}

/// The readable message of a load error.
pub open spec fn load_message(fault: LoadFault) -> Seq<char> {
    match fault {
        LoadFault::NotUtf8(text) => text,
        LoadFault::UnexpectedTag => "Unexpected or unknown tag encountered"@,
        LoadFault::PairValue =>
            "Should not have pair val in the current version, check the response logic!"@,
    }
}

/// The readable message of a parsing error.
pub open spec fn parsing_message(fault: ParsingFault) -> Seq<char> {
    match fault {
        ParsingFault::NotValidVal => "value is not valid"@,
        ParsingFault::NotCompleteSnapshot(remaining) =>
            "incomplete snapshot, "@ + signed_decimal(remaining as int) + " entries still expected"@,
        ParsingFault::FailToLoad(source) => "failed to load: "@ + load_message(source),
    }
}

impl LoadError {
    /// The readable message.
    pub fn to_string(&self) -> (r: String)
        ensures
            r@ == load_message(self@),
    {
        match self {
            LoadError::NotUtf8(text) => text.clone(),
            LoadError::UnexpectedTag => "Unexpected or unknown tag encountered".to_owned(),
            LoadError::PairValue =>
                "Should not have pair val in the current version, check the response logic!".to_owned(),
        }
    }
}

impl ParsingError {
    /// The readable message.
    pub fn to_string(&self) -> (r: String)
        ensures
            r@ == parsing_message(self@),
    {
        match self {
            ParsingError::NotValidVal => "value is not valid".to_owned(),
            ParsingError::NotCompleteSnapshot(remaining) => {
                let mut r: String = "incomplete snapshot, ".to_owned();
                let number: String = signed_decimal_text(*remaining);
                r.append(number.as_str());
                r.append(" entries still expected");
                r
            },
            ParsingError::FailToLoad(source) => {
                let mut r: String = "failed to load: ".to_owned();
                let message: String = source.to_string();
                r.append(message.as_str());
                r
            },
        }
    }

    /// The load error underneath, where there is one.
    pub fn source(&self) -> (r: Option<&LoadError>)
        ensures
            match r {
                Some(source) => self@ == ParsingFault::FailToLoad(source@),
                None => !(self@ is FailToLoad),
            },
    {
        match self {
            ParsingError::FailToLoad(source) => Some(source),
            _ => None,
        }
    }
}

impl From<LoadError> for ParsingError {
    fn from(value: LoadError) -> (r: Self) {
        ParsingError::FailToLoad(value)
    }
}

impl vstd::std_specs::convert::FromSpecImpl<LoadError> for ParsingError {
    open spec fn obeys_from_spec() -> bool {
        true
    }

    open spec fn from_spec(value: LoadError) -> Self {
        ParsingError::FailToLoad(value)
    }
}

} // verus!
