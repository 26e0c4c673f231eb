use vstd::prelude::*;

verus! {

#[derive(Debug, Clone, PartialEq)]
pub enum AppError {
    InternalServerError(String),
    CrosswordNotFound(String),
}

/// Relies on `String::push_str`: appends `t` to `s`.
#[verifier::external_body]
pub(crate) fn push_str(s: &mut String, t: &str)
    ensures
        final(s)@ == old(s)@ + t@,
{
    s.push_str(t)
}

pub open spec fn internal_prefix() -> Seq<char> {
    "Something went wrong: "@
}

pub open spec fn not_found_prefix() -> Seq<char> {
    "Could not find crossword for id: "@
}

impl AppError {
    /// The text shown to a client for this error.
    pub open spec fn spec_message(&self) -> Seq<char> {
        match self {
            AppError::InternalServerError(m) => internal_prefix() + m@,
            AppError::CrosswordNotFound(id) => not_found_prefix() + id@,
        }
    }

    pub fn message(&self) -> (r: String)
        ensures
            r@ == self.spec_message(),
    {
        match self {
            AppError::InternalServerError(m) => {
                let mut s = "Something went wrong: ".to_owned();
                proof {
                    reveal_strlit("Something went wrong: ");
                }
                push_str(&mut s, m.as_str());
                s
            },
            AppError::CrosswordNotFound(id) => {
                let mut s = "Could not find crossword for id: ".to_owned();
                push_str(&mut s, id.as_str());
                s
            },
        }
    }
}

/// The HTTP status that answers a request that failed with `error`.
pub fn to_status_code(error: AppError) -> (r: u16)
    ensures
        r == match error {
            AppError::InternalServerError(_) => 500u16,
            AppError::CrosswordNotFound(_) => 404u16,
        },
{
    match error {
        AppError::InternalServerError(_) => 500,
        AppError::CrosswordNotFound(_) => 404,
    }
}

impl From<String> for AppError {
    fn from(error: String) -> (r: AppError)
        ensures
            r == AppError::InternalServerError(error),
    {
        AppError::InternalServerError(error)
    }
}

impl vstd::std_specs::convert::FromSpecImpl<String> for AppError {
    open spec fn obeys_from_spec() -> bool {
        true
    }

    open spec fn from_spec(error: String) -> AppError {
        AppError::InternalServerError(error)
    }
}

} // verus!
