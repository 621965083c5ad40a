//! What can go wrong between the library and `gh`.
use vstd::prelude::*;

verus! {

/// Why an operation could not be carried out.
#[derive(Debug, PartialEq, Eq)]
pub enum Error {
    /// The `gh` process could not be started.
    Io(String),
    /// `gh` reported a failure, or its output was not what was asked for.
    Api(String),
}

/// An [`Error`] with its message as a sequence of characters.
pub enum ErrorView {
    Io(Seq<char>),
    Api(Seq<char>),
}

impl DeepView for Error {
    type V = ErrorView;

    open spec fn deep_view(&self) -> ErrorView {
        match self {
            Error::Io(message) => ErrorView::Io(message@),
            Error::Api(message) => ErrorView::Api(message@),
        }
    }
}

/// What one `gh` invocation came back with: its standard output, or an error.
pub open spec fn answer_view(answer: Result<Vec<u8>, Error>) -> Result<Seq<u8>, ErrorView> {
    match answer {
        Ok(raw) => Ok(raw@),
        Err(e) => Err(e.deep_view()),
    }
}

/// Several answers, in the order of the calls.
pub open spec fn answers_view(answers: Seq<Result<Vec<u8>, Error>>) -> Seq<
    Result<Seq<u8>, ErrorView>,
> {
    Seq::new(answers.len(), |i: int| answer_view(answers[i]))
}

}
