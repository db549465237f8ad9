//! The language-model port: requests, responses and the error taxonomy.

use vstd::prelude::*;
use vstd::string::StringExecFns;

use crate::Class;

verus! {

/// One completion request.
#[derive(Debug)]
pub struct CompletionRequest {
    /// Provider model id.
    pub model: String,
    /// The rendered prompt.
    pub prompt: String,
    /// Generation token limit, if any.
    pub max_tokens: Option<u32>,
    /// The bits of the sampling temperature.
    pub temperature_bits: u32,
    /// JSON schema the output must satisfy, as text, when supported.
    pub json_schema: Option<String>,
}

/// One completion response, with the usage counters.
#[derive(Debug, Clone)]
pub struct CompletionResponse {
    /// The completion text.
    pub text: String,
    /// Prompt tokens consumed.
    pub prompt_tokens: u64,
    /// Completion tokens produced.
    pub completion_tokens: u64,
}

/// Failures of a language model.
#[derive(Debug, Clone, PartialEq, Eq)]
pub enum LlmError {
    /// The endpoint is unreachable or not ready.
    Unavailable(String),
    /// The endpoint throttled the request.
    RateLimited,
    /// The response did not satisfy the request's schema or shape.
    InvalidResponse(String),
}

impl LlmError {
    /// The retry class: unavailability and throttling retry; an invalid response is permanent, since
    /// generation is deterministic.
    pub open spec fn retry_class(self) -> Class {
        match self {
            LlmError::Unavailable(_) | LlmError::RateLimited => Class::Retry,
            LlmError::InvalidResponse(_) => Class::Permanent,
        }
    }

    /// The retry class.
    pub fn class(&self) -> (res: Class)
        ensures
            res == self.retry_class(),
    {
        match self {
            LlmError::Unavailable(_) => Class::Retry,
            LlmError::RateLimited => Class::Retry,
            LlmError::InvalidResponse(_) => Class::Permanent,
        }
    }

    /// The message of the error.
    pub open spec fn text(self) -> Seq<char> {
        match self {
            LlmError::Unavailable(m) => "llm endpoint unavailable: "@ + m@,
            LlmError::RateLimited => "llm rate limited"@,
            LlmError::InvalidResponse(m) => "llm response invalid: "@ + m@,
        }
    }

    /// The message of the error.
    pub fn message(&self) -> (res: String)
        ensures
            res@ == self.text(),
    {
        match self {
            LlmError::Unavailable(m) => {
                let mut s = "llm endpoint unavailable: ".to_owned();
                s.append(m.as_str());
                s
            },
            LlmError::RateLimited => "llm rate limited".to_owned(),
            LlmError::InvalidResponse(m) => {
                let mut s = "llm response invalid: ".to_owned();
                s.append(m.as_str());
                s
            },
        }
    }
}

/// An inert model for deployments that never call one: every completion fails with a named reason.
#[derive(Debug, Clone, Copy)]
pub struct NoLlm;

impl NoLlm {
    /// Stable provider name.
    pub fn provider_name(&self) -> (res: &'static str)
        ensures
            res@ == "none"@,
    {
        "none"
    }

    /// Fails, whatever is asked.
    pub fn complete(&self, req: &CompletionRequest) -> (res: Result<CompletionResponse, LlmError>)
        ensures
            res matches Err(LlmError::Unavailable(m)) && m@
                == "no LLM provider is wired (graph_enabled = false, §6)"@,
    {
        Err(
            LlmError::Unavailable("no LLM provider is wired (graph_enabled = false, §6)".to_owned()),
        )
    }
}

} // verus!
