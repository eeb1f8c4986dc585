//! The errors of the library.

use vstd::prelude::*;
use vstd::string::*;

verus! {

/// `serde_json::Error`: why a text is not the expected JSON document.
#[verifier::external_type_specification]
#[verifier::external_body]
pub struct ExJsonError(serde_json::Error);

/// The `Display` text of a `serde_json::Error`.
pub uninterp spec fn json_error_text(e: serde_json::Error) -> Seq<char>;

/// The `Display` text of a `serde_json::Error`.
#[verifier::external_body]
fn describe(e: &serde_json::Error) -> (res: String)
    ensures
        res@ == json_error_text(*e),
{
    e.to_string()
}

#[derive(Debug)]
pub enum BondarError {
    /// An operation of the operating system failed, with its description.
    Io(String),
    Json(serde_json::Error),
    Config(String),
    Docker(String),
    NotFound(String),
}

#[verifier::ext_equal]
pub enum ErrorView {
    Io(Seq<char>),
    Json(Seq<char>),
    Config(Seq<char>),
    Docker(Seq<char>),
    NotFound(Seq<char>),
}

impl View for BondarError {
    type V = ErrorView;

    open spec fn view(&self) -> ErrorView {
        match self {
            BondarError::Io(s) => ErrorView::Io(s@),
            BondarError::Json(e) => ErrorView::Json(json_error_text(*e)),
            BondarError::Config(s) => ErrorView::Config(s@),
            BondarError::Docker(s) => ErrorView::Docker(s@),
            BondarError::NotFound(s) => ErrorView::NotFound(s@),
        }
    }
}

/// The error of a failed call.
pub open spec fn failure<T>(r: Result<T, BondarError>) -> Option<ErrorView> {
    match r {
        Ok(_) => None,
        Err(e) => Some(e@),
    }
}

/// The line that describes an error.
pub open spec fn error_line(e: ErrorView) -> Seq<char> {
    match e {
        ErrorView::Io(s) => "IO error: "@ + s,
        ErrorView::Json(s) => "JSON error: "@ + s,
        ErrorView::Config(s) => "Config error: "@ + s,
        ErrorView::Docker(s) => "Docker error: "@ + s,
        ErrorView::NotFound(s) => "Not found: "@ + s,
    }
}

impl BondarError {
    /// The line that describes the error.
    pub fn message(&self) -> (res: String)
        ensures
            res@ == error_line(self@),
    {
        match self {
            BondarError::Io(s) => "IO error: ".to_owned().concat(s.as_str()),
            BondarError::Json(e) => {
                let text = describe(e);
                "JSON error: ".to_owned().concat(text.as_str())
            },
            BondarError::Config(s) => "Config error: ".to_owned().concat(s.as_str()),
            BondarError::Docker(s) => "Docker error: ".to_owned().concat(s.as_str()),
            BondarError::NotFound(s) => "Not found: ".to_owned().concat(s.as_str()),
        }
    }
}

impl From<serde_json::Error> for BondarError {
    fn from(e: serde_json::Error) -> (res: BondarError) {
        BondarError::Json(e)
    }
}

impl vstd::std_specs::convert::FromSpecImpl<serde_json::Error> for BondarError {
    open spec fn obeys_from_spec() -> bool {
        true
    }

    open spec fn from_spec(e: serde_json::Error) -> BondarError {
        BondarError::Json(e)
    }
}

/// An error is described by its kind and then its own text.
pub proof fn law_error_lines(s: Seq<char>)
    ensures
        error_line(ErrorView::Io(s)) == "IO error: "@ + s,
        error_line(ErrorView::Json(s)) == "JSON error: "@ + s,
        error_line(ErrorView::Config(s)) == "Config error: "@ + s,
        error_line(ErrorView::Docker(s)) == "Docker error: "@ + s,
        error_line(ErrorView::NotFound(s)) == "Not found: "@ + s,
{
}

} // verus!
