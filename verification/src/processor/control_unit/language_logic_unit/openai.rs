//! The messages exchanged with an OpenAI-compatible server, and where to send them.
use vstd::prelude::*;

verus! {

#[derive(Debug)]
pub struct OpenAIChatCompletionRequestText {
    pub role: String,
    pub content: String,
}

#[derive(Debug)]
pub struct OpenAIChatCompletionResponseMessage {
    pub role: String,
    pub content: String,
}

#[derive(Debug)]
pub struct OpenAIChatCompletionResponseChoice {
    pub index: u8,
    pub message: OpenAIChatCompletionResponseMessage,
}

#[derive(Debug)]
pub struct OpenAIChatCompletionResponse {
    pub model: String,
    pub choices: Vec<OpenAIChatCompletionResponseChoice>,
}

#[derive(Debug)]
pub struct OpenAIEmbeddingsRequest {
    pub model: String,
    pub input: String,
    pub encoding_format: String,
}

/// Where the server listens, and how long a request may take.
pub struct OpenAIClient {
    base_url: String,
    chat_completion_endpoint: String,
    embeddings_endpoint: String,
    timeout_secs: u64,
}

impl OpenAIClient {
    pub closed spec fn spec_base_url(&self) -> Seq<char> {
        self.base_url@
    }

    pub closed spec fn spec_chat_completion_endpoint(&self) -> Seq<char> {
        self.chat_completion_endpoint@
    }

    pub closed spec fn spec_embeddings_endpoint(&self) -> Seq<char> {
        self.embeddings_endpoint@
    }

    pub closed spec fn spec_timeout_secs(&self) -> u64 {
        self.timeout_secs
    }

    /// A client for a server on this machine, with the default endpoints and a
    /// two-minute timeout.
    pub fn new() -> (r: Self)
        ensures
            r.spec_base_url() == "http://127.0.0.1:8080"@,
            r.spec_chat_completion_endpoint() == "v1/chat/completions"@,
            r.spec_embeddings_endpoint() == "v1/embeddings"@,
            r.spec_timeout_secs() == 120,
    {
        OpenAIClient {
            base_url: String::from_str("http://127.0.0.1:8080"),
            chat_completion_endpoint: String::from_str("v1/chat/completions"),
            embeddings_endpoint: String::from_str("v1/embeddings"),
            timeout_secs: 120,
        }
    }

    pub fn with_endpoints(base_url: String, chat_completion_endpoint: String, embeddings_endpoint: String, timeout_secs: u64) -> (r: Self)
        ensures
            r.spec_base_url() == base_url@,
            r.spec_chat_completion_endpoint() == chat_completion_endpoint@,
            r.spec_embeddings_endpoint() == embeddings_endpoint@,
            r.spec_timeout_secs() == timeout_secs,
    {
        OpenAIClient { base_url, chat_completion_endpoint, embeddings_endpoint, timeout_secs }
    }

    fn url(&self, endpoint: &String) -> (r: String)
        ensures
            r@ == self.spec_base_url() + "/"@ + endpoint@,
    {
        let mut url = self.base_url.clone();
        url.append("/");
        url.append(endpoint.as_str());
        url
    }

    /// `base_url/chat_completion_endpoint`.
    pub fn chat_completion_url(&self) -> (r: String)
        ensures
            r@ == self.spec_base_url() + "/"@ + self.spec_chat_completion_endpoint(),
    {
        self.url(&self.chat_completion_endpoint)
    }

    /// `base_url/embeddings_endpoint`.
    pub fn embeddings_url(&self) -> (r: String)
        ensures
            r@ == self.spec_base_url() + "/"@ + self.spec_embeddings_endpoint(),
    {
        self.url(&self.embeddings_endpoint)
    }

    pub fn timeout_secs(&self) -> (r: u64)
        ensures
            r == self.spec_timeout_secs(),
    {
        self.timeout_secs
    }

    /// Only a `200 OK` answer carries a reply.
    pub fn accepts_status(status_code: i32) -> (r: bool)
        ensures
            r == (status_code == 200),
    {
        status_code == 200
    }
}

} // verus!
