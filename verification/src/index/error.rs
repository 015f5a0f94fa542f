//! Errors returned by the index.

use vstd::prelude::*;

verus! {

/// Errors returned by the index.
#[derive(Debug, Clone, PartialEq, Eq)]
pub enum IndexError {
    /// Caller-provided index input was invalid.
    InvalidInput {
        /// Description of the invalid input.
        message: String,
    },
    /// Index storage or model construction failed.
    Open {
        /// What the failing component reported.
        message: String,
    },
    /// An index write or rollback failed.
    Write {
        /// What the failing component reported.
        message: String,
    },
    /// An index read failed.
    Read {
        /// What the failing component reported.
        message: String,
    },
    /// An index search failed.
    Search {
        /// What the failing component reported.
        message: String,
    },
}

/// The message an index error displays.
pub open spec fn index_error_text(error: IndexError) -> Seq<char> {
    match error {
        IndexError::InvalidInput { message } => message@,
        IndexError::Open { message } => "Index initialization failed: "@ + message@,
        IndexError::Write { message } => "Index write failed: "@ + message@,
        IndexError::Read { message } => "Index read failed: "@ + message@,
        IndexError::Search { message } => "Index search failed: "@ + message@,
    }
}

impl IndexError {
    /// Wraps initialization failures at the index boundary.
    pub fn open(message: String) -> (error: Self)
        ensures
            error == (IndexError::Open { message }),
    {
        IndexError::Open { message }
    }

    /// Wraps write failures at the index boundary.
    pub fn write(message: String) -> (error: Self)
        ensures
            error == (IndexError::Write { message }),
    {
        IndexError::Write { message }
    }

    /// Wraps read failures at the index boundary.
    pub fn read(message: String) -> (error: Self)
        ensures
            error == (IndexError::Read { message }),
    {
        IndexError::Read { message }
    }

    /// Wraps search failures at the index boundary.
    pub fn search(message: String) -> (error: Self)
        ensures
            error == (IndexError::Search { message }),
    {
        IndexError::Search { message }
    }

    /// Whether the caller's input was at fault, rather than the index.
    pub fn is_invalid_input(&self) -> (invalid: bool)
        ensures
            invalid == (self is InvalidInput),
    {
        match self {
            IndexError::InvalidInput { .. } => true,
            _ => false,
        }
    }

    /// The error's message (its display text).
    pub fn to_string(&self) -> (text: String)
        ensures
            text@ == index_error_text(*self),
    {
        match self {
            IndexError::InvalidInput { message } => message.clone(),
            IndexError::Open { message } => {
                let mut text = "Index initialization failed: ".to_owned();
                text.append(message.as_str());
                text
            },
            IndexError::Write { message } => {
                let mut text = "Index write failed: ".to_owned();
                text.append(message.as_str());
                text
            },
            IndexError::Read { message } => {
                let mut text = "Index read failed: ".to_owned();
                text.append(message.as_str());
                text
            },
            IndexError::Search { message } => {
                let mut text = "Index search failed: ".to_owned();
                text.append(message.as_str());
                text
            },
        }
    }
}

} // verus!
