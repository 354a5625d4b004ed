//! What every kind of question offers: a prompt, and a check of a typed answer.

use vstd::prelude::*;
use crate::abstract_sequence::Missing;
use crate::arithmetic::{Div, Mod, Mul, Sub, Sum};
use crate::text::{append_int, int_text, trim, trimmed};

verus! {

/// Why a typed answer could not be checked.
#[derive(Debug)]
pub enum CheckError {
    /// The answer, once trimmed, is not a number of the expected type.
    NotAnInteger(String),
    /// The answer names an option that does not exist.
    NotInRange(i32),
    /// The answer, once trimmed, is not a real number.
    NotAReal(String),
}

/// The message for an answer that is not an integer.
pub open spec fn not_integer_message(t: Seq<char>) -> Seq<char> {
    "Input is not an integer `"@ + t + "`"@
}

/// The message for an answer that is not a real number.
pub open spec fn not_real_message(t: Seq<char>) -> Seq<char> {
    "Input is not a real `"@ + t + "`"@
}

/// The message for an option number that is out of range.
pub open spec fn not_in_range_message(n: i32) -> Seq<char> {
    "Input is not in range `"@ + int_text(n as int) + "`"@
}

impl CheckError {
    pub open spec fn spec_message(&self) -> Seq<char> {
        match self {
            CheckError::NotAnInteger(t) => not_integer_message(t@),
            CheckError::NotInRange(n) => not_in_range_message(*n),
            CheckError::NotAReal(t) => not_real_message(t@),
        }
    }

    /// The line shown to the user for this error.
    pub fn message(&self) -> (r: String)
        ensures
            r@ == self.spec_message(),
    {
        match self {
            CheckError::NotAnInteger(t) => {
                let mut out = String::from_str("Input is not an integer `");
                out.append(t.as_str());
                out.append("`");
                out
            },
            CheckError::NotInRange(n) => {
                let mut out = String::from_str("Input is not in range `");
                append_int(&mut out, *n as i64);
                out.append("`");
                out
            },
            CheckError::NotAReal(t) => {
                let mut out = String::from_str("Input is not a real `");
                out.append(t.as_str());
                out.append("`");
                out
            },
        }
    }
}

/// The outcome of a check as the user sees it: a verdict, or an error message.
pub open spec fn verdict_of(r: Result<bool, CheckError>) -> Result<bool, Seq<char>> {
    match r {
        Ok(b) => Ok(b),
        Err(e) => Err(e.spec_message()),
    }
}

/// A question that can be shown and answered.
pub trait Question {
    /// What a value must satisfy before it can be asked.
    spec fn well_formed(&self) -> bool;

    /// The text shown to the user.
    spec fn prompt(&self) -> Seq<char>;

    /// The outcome of checking an answer whose surrounding white space has
    /// been removed.
    spec fn verdict(&self, t: Seq<char>) -> Result<bool, Seq<char>>;

    /// Renders the prompt; the same text on every call.
    fn body(&self) -> (r: String)
        ensures
            r@ == self.prompt(),
    ;

    /// Checks an answer whose surrounding white space has been removed.
    fn check_trimmed(&self, t: &str) -> (r: Result<bool, CheckError>)
        requires
            self.well_formed(),
        ensures
            verdict_of(r) == self.verdict(t@),
    ;

    /// Checks a typed answer: whether it is right, or why it cannot be read.
    fn check(&self, answer: &String) -> (r: Result<bool, CheckError>)
        requires
            self.well_formed(),
        ensures
            verdict_of(r) == self.verdict(trimmed(answer@)),
    {
        self.check_trimmed(trim(answer.as_str()))
    }
}

/// A question of any of the kinds this library offers.
#[derive(Debug, PartialEq, Eq)]
pub enum Task {
    Sum(Sum),
    Sub(Sub),
    Mul(Mul),
    Div(Div),
    Mod(Mod),
    Missing(Missing),
}

impl Question for Task {
    open spec fn well_formed(&self) -> bool {
        match self {
            Task::Sum(q) => q.well_formed(),
            Task::Sub(q) => q.well_formed(),
            Task::Mul(q) => q.well_formed(),
            Task::Div(q) => q.well_formed(),
            Task::Mod(q) => q.well_formed(),
            Task::Missing(q) => q.well_formed(),
        }
    }

    open spec fn prompt(&self) -> Seq<char> {
        match self {
            Task::Sum(q) => q.prompt(),
            Task::Sub(q) => q.prompt(),
            Task::Mul(q) => q.prompt(),
            Task::Div(q) => q.prompt(),
            Task::Mod(q) => q.prompt(),
            Task::Missing(q) => q.prompt(),
        }
    }

    open spec fn verdict(&self, t: Seq<char>) -> Result<bool, Seq<char>> {
        match self {
            Task::Sum(q) => q.verdict(t),
            Task::Sub(q) => q.verdict(t),
            Task::Mul(q) => q.verdict(t),
            Task::Div(q) => q.verdict(t),
            Task::Mod(q) => q.verdict(t),
            Task::Missing(q) => q.verdict(t),
        }
    }

    fn body(&self) -> (r: String) {
        match self {
            Task::Sum(q) => q.body(),
            Task::Sub(q) => q.body(),
            Task::Mul(q) => q.body(),
            Task::Div(q) => q.body(),
            Task::Mod(q) => q.body(),
            Task::Missing(q) => q.body(),
        }
    }

    fn check_trimmed(&self, t: &str) -> (r: Result<bool, CheckError>) {
        match self {
            Task::Sum(q) => q.check_trimmed(t),
            Task::Sub(q) => q.check_trimmed(t),
            Task::Mul(q) => q.check_trimmed(t),
            Task::Div(q) => q.check_trimmed(t),
            Task::Mod(q) => q.check_trimmed(t),
            Task::Missing(q) => q.check_trimmed(t),
        }
    }
}

} // verus!
