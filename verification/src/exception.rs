//! The error types that the program reports.
use vstd::prelude::*;
use vstd::std_specs::convert::FromSpecImpl;

verus! {

#[derive(Debug)]
pub struct BaseException {
    pub message: String,
    pub inner_exception: Option<Box<BaseException>>,
}

impl BaseException {
    pub fn new(message: String, inner_exception: Option<Box<BaseException>>) -> (r: Self)
        ensures
            r.message == message,
            r.inner_exception == inner_exception,
    {
        BaseException { message, inner_exception }
    }

    /// How the exception reads: its message.
    pub fn to_string(&self) -> (r: String)
        ensures
            r@ == self.message@,
    {
        self.message.clone()
    }
}

#[derive(Debug)]
pub enum Exception {
    StartUpException(BaseException),
    // OpenAI client exceptions.
    OpenAIChatCompletionException(BaseException),
    OpenAIEmbeddingsException(BaseException),
    // Language logic unit exceptions.
    LanguageLogicException(BaseException),
    // Control unit exceptions.
    DecoderException(BaseException),
    ExecutorException(BaseException),
}

/// The exception that an `Exception` wraps, whatever its kind.
pub open spec fn spec_base_of(exception: Exception) -> BaseException {
    match exception {
        Exception::StartUpException(e) => e,
        Exception::OpenAIChatCompletionException(e) => e,
        Exception::OpenAIEmbeddingsException(e) => e,
        Exception::LanguageLogicException(e) => e,
        Exception::DecoderException(e) => e,
        Exception::ExecutorException(e) => e,
    }
}

impl From<Exception> for BaseException {
    fn from(exception: Exception) -> (r: Self) {
        match exception {
            Exception::StartUpException(e) => BaseException::new(e.message, e.inner_exception),
            Exception::OpenAIChatCompletionException(e) => BaseException::new(e.message, e.inner_exception),
            Exception::OpenAIEmbeddingsException(e) => BaseException::new(e.message, e.inner_exception),
            Exception::LanguageLogicException(e) => BaseException::new(e.message, e.inner_exception),
            Exception::DecoderException(e) => BaseException::new(e.message, e.inner_exception),
            Exception::ExecutorException(e) => BaseException::new(e.message, e.inner_exception),
        }
    }
}

impl FromSpecImpl<Exception> for BaseException {
    open spec fn obeys_from_spec() -> bool {
        true
    }

    open spec fn from_spec(v: Exception) -> BaseException {
        spec_base_of(v)
    }
}

impl From<String> for BaseException {
    fn from(message: String) -> (r: Self) {
        BaseException::new(message, None)
    }
}

impl FromSpecImpl<String> for BaseException {
    open spec fn obeys_from_spec() -> bool {
        true
    }

    open spec fn from_spec(v: String) -> BaseException {
        BaseException { message: v, inner_exception: None }
    }
}

} // verus!
