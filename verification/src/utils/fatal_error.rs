//! An error that ends the program.

use vstd::prelude::*;
use vstd::string::*;

verus! {

/// An error that ends the program, with a message for the operator.
#[derive(Debug)]
pub struct FatalError {
    msg: String,
}

impl View for FatalError {
    type V = Seq<char>;

    closed spec fn view(&self) -> Seq<char> {
        self.msg@
    }
}

impl FatalError {
    /// A fatal error that says `msg`.
    pub fn new(msg: &str) -> (error: FatalError)
        ensures
            error@ == msg@,
    {
        FatalError { msg: String::from_str(msg) }
    }

    /// The message of this error.
    pub fn message(&self) -> (msg: &str)
        ensures
            msg@ == self@,
    {
        self.msg.as_str()
    }

    /// The report of this error: the words "fatal error", a colon and a
    /// space, the message.
    pub fn to_string(&self) -> (report: String)
        ensures
            report@ == "fatal error: "@ + self@,
    {
        let mut report = String::from_str("fatal error: ");
        report.append(self.msg.as_str());
        report
    }
}

} // verus!
