//! The error type of the library: a message for the user.
use vstd::prelude::*;
use vstd::std_specs::convert::FromSpecImpl;

verus! {

/// An error reported to the user, carried as its text.
pub struct AppError(pub String);

impl View for AppError {
    type V = Seq<char>;

    open spec fn view(&self) -> Seq<char> {
        self.0@
    }
}

impl AppError {
    /// An error whose text is `text`.
    pub fn new(text: &str) -> (r: AppError)
        ensures
            r@ == text@,
    {
        AppError(String::from_str(text))
    }

    /// A copy of this error with the same text.
    pub fn duplicate(&self) -> (r: AppError)
        ensures
            r@ == self@,
    {
        AppError(self.0.clone())
    }
}

impl From<String> for AppError {
    fn from(error: String) -> (r: Self) {
        AppError(error)
    }
}

impl FromSpecImpl<String> for AppError {
    open spec fn obeys_from_spec() -> bool {
        true
    }

    open spec fn from_spec(v: String) -> Self {
        AppError(v)
    }
}

impl<'a> From<&'a str> for AppError {
    /// An error whose text is `error`.
    fn from(error: &'a str) -> (r: Self)
        ensures
            r@ == error@,
    {
        AppError::new(error)
    }
}

impl<'a> FromSpecImpl<&'a str> for AppError {
    /// The text of the result is stated by `from` itself (`r@ == error@`);
    /// a `String` equal to `error` cannot be written in a specification.
    open spec fn obeys_from_spec() -> bool {
        false
    }

    open spec fn from_spec(v: &'a str) -> Self {
        arbitrary()
    }
}

} // verus!
