//! Errors that are a text.
use vstd::prelude::*;

verus! {

/// An error of the standard library of contracts.
#[derive(Clone, Debug, PartialEq, Eq)]
pub enum StdError {
    GenericErr { msg: String },
}

impl View for StdError {
    type V = Seq<char>;

    open spec fn view(&self) -> Seq<char> {
        match *self {
            StdError::GenericErr { msg } => msg@,
        }
    }
}

impl StdError {
    pub fn generic_err(msg: String) -> (r: Self)
        ensures
            r@ == msg@,
    {
        StdError::GenericErr { msg }
    }
}

/// An error of the test environment itself.
#[derive(Clone, Debug, PartialEq, Eq)]
pub struct MockError {
    pub msg: String,
}

impl View for MockError {
    type V = Seq<char>;

    open spec fn view(&self) -> Seq<char> {
        self.msg@
    }
}

impl MockError {
    pub fn msg(text: &str) -> (r: Self)
        ensures
            r@ == text@,
    {
        MockError { msg: text.to_owned() }
    }
}

/// An error has the text that it was made with.
pub proof fn law_errors_have_their_text(msg: String)
    ensures
        (StdError::GenericErr { msg })@ == msg@,
        (MockError { msg })@ == msg@,
{
}

} // verus!
