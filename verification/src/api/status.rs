//! How a request that is refused is answered.
use vstd::prelude::*;

verus! {

/// Why a request is refused.
#[derive(Debug, PartialEq, Eq, Structural, Copy, Clone)]
pub enum Code {
    Cancelled,
    InvalidArgument,
    NotFound,
    AlreadyExists,
    FailedPrecondition,
    Unimplemented,
    Internal,
}

/// The answer to a request that is refused.
#[derive(Debug)]
pub struct Status {
    pub code: Code,
    pub message: String,
}

/// What a [`Status`] says.
pub struct StatusView {
    pub code: Code,
    pub message: Seq<char>,
}

impl View for Status {
    type V = StatusView;

    open spec fn view(&self) -> StatusView {
        StatusView { code: self.code, message: self.message@ }
    }
}

/// A refusal with this code and message.
pub open spec fn refusal(code: Code, message: Seq<char>) -> StatusView {
    StatusView { code, message }
}

/// A refusal of a value that is given between quotes in the message.
pub open spec fn invalid_value(what: Seq<char>, value: Seq<char>) -> StatusView {
    refusal(Code::InvalidArgument, what + " '"@ + value + "'"@)
}

impl Status {
    /// A refusal with this code and message.
    pub fn new(code: Code, message: &str) -> (s: Status)
        ensures
            s@ == refusal(code, message@),
    {
        Status { code, message: message.to_owned() }
    }

    /// A refusal of an argument.
    pub fn invalid_argument(message: &str) -> (s: Status)
        ensures
            s@ == refusal(Code::InvalidArgument, message@),
    {
        Status::new(Code::InvalidArgument, message)
    }

    /// A refusal of a value that is given between quotes in the message.
    pub fn invalid_value(what: &str, value: &str) -> (s: Status)
        ensures
            s@ == invalid_value(what@, value@),
    {
        let mut message = what.to_owned();
        message.push_str(" '");
        message.push_str(value);
        message.push_str("'");
        Status { code: Code::InvalidArgument, message }
    }

    /// A refusal because something is not there.
    pub fn not_found(message: &str) -> (s: Status)
        ensures
            s@ == refusal(Code::NotFound, message@),
    {
        Status::new(Code::NotFound, message)
    }

    /// A refusal because of the state that something is in.
    pub fn failed_precondition(message: &str) -> (s: Status)
        ensures
            s@ == refusal(Code::FailedPrecondition, message@),
    {
        Status::new(Code::FailedPrecondition, message)
    }

    /// A refusal because a method is not there.
    pub fn unimplemented(message: &str) -> (s: Status)
        ensures
            s@ == refusal(Code::Unimplemented, message@),
    {
        Status::new(Code::Unimplemented, message)
    }
}

} // verus!
