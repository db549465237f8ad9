//! The adapter of a local model behind an OpenAI-compatible endpoint: what is asked, and what is
//! accepted of the answers.

use vstd::prelude::*;
use vstd::string::StringExecFns;

use crate::llm::{CompletionRequest, CompletionResponse, LlmError};
use crate::text::{debug_form, debug_string, decimal, decimal_string};
use crate::web::{join_url, joined_error, joined_parts, parse_url, url_error, url_parts};

verus! {

/// The completions path of an endpoint.
pub const COMPLETIONS_PATH: &'static str = "/v1/chat/completions";

/// The liveness path of an endpoint.
pub const PROBE_PATH: &'static str = "/api/tags";

/// Stable provider name.
pub const PROVIDER_NAME: &'static str = "ollama";

/// The address of a path on an endpoint.
pub fn endpoint_address(base: &str, path: &str) -> (res: Result<String, LlmError>)
    ensures
        match url_parts(base@) {
            None => res matches Err(LlmError::Unavailable(m)) && m@ == "base_url join failed: "@
                + url_error(base@),
            Some(_) => match joined_parts(base@, path@) {
                None => res matches Err(LlmError::Unavailable(m)) && m@ == "base_url join failed: "@
                    + joined_error(base@, path@),
                Some(v) => res matches Ok(s) && s@ == v.href,
            },
        },
{
    let joined = match parse_url(base) {
        Err(e) => Err(e),
        Ok(_) => join_url(base, path),
    };
    match joined {
        Ok(parts) => Ok(parts.href),
        Err(e) => {
            let mut s = "base_url join failed: ".to_owned();
            s.append(e.as_str());
            Err(LlmError::Unavailable(s))
        },
    }
}

/// Decides on the status of a liveness probe.
pub fn probe_outcome(status: u16) -> (res: Result<(), LlmError>)
    ensures
        if status == 200 {
            res is Ok
        } else if status == 429 {
            res matches Err(LlmError::RateLimited)
        } else {
            res matches Err(LlmError::Unavailable(m)) && m@ == "ollama health probe got HTTP "@
                + decimal(status as nat)
        },
{
    if status == 200 {
        Ok(())
    } else if status == 429 {
        Err(LlmError::RateLimited)
    } else {
        let mut s = "ollama health probe got HTTP ".to_owned();
        s.append(decimal_string(status as u64).as_str());
        Err(LlmError::Unavailable(s))
    }
}

/// What the completions endpoint is asked.
#[derive(Debug)]
pub struct ChatRequest {
    /// The model.
    pub model: String,
    /// Who speaks.
    pub role: &'static str,
    /// What is said.
    pub content: String,
    /// The bits of the sampling temperature.
    pub temperature_bits: u32,
    /// Generation token limit, if any.
    pub max_tokens: Option<u32>,
    /// The schema of the answer, as JSON text.
    pub response_format: Option<ResponseFormat>,
}

/// The format that an answer must have.
#[derive(Debug)]
pub struct ResponseFormat {
    /// The kind of format.
    pub kind: &'static str,
    /// The name of the schema.
    pub name: &'static str,
    /// The schema, as JSON text.
    pub schema: String,
    /// Whether the schema is enforced.
    pub strict: bool,
}

/// Writes the request for a completion: the prompt is the only message, and a schema is enforced.
pub fn chat_request(req: &CompletionRequest) -> (res: ChatRequest)
    ensures
        res.model@ == req.model@,
        res.role@ == "user"@,
        res.content@ == req.prompt@,
        res.temperature_bits == req.temperature_bits,
        res.max_tokens == req.max_tokens,
        match req.json_schema {
            None => res.response_format is None,
            Some(schema) => res.response_format matches Some(f) && f.kind@ == "json_schema"@
                && f.name@ == "response"@ && f.schema@ == schema@ && f.strict,
        },
{
    ChatRequest {
        model: req.model.clone(),
        role: "user",
        content: req.prompt.clone(),
        temperature_bits: req.temperature_bits,
        max_tokens: req.max_tokens,
        response_format: match &req.json_schema {
            None => None,
            Some(schema) => Some(
                ResponseFormat {
                    kind: "json_schema",
                    name: "response",
                    schema: schema.clone(),
                    strict: true,
                },
            ),
        },
    }
}

/// The usage that an answer reports.
#[derive(Debug, Clone, Copy)]
pub struct Usage {
    /// Tokens of the prompt.
    pub prompt_tokens: Option<u64>,
    /// Tokens of the completion.
    pub completion_tokens: Option<u64>,
}

/// An answer of the completions endpoint: the content of each choice, and the usage.
#[derive(Debug)]
pub struct ChatResponse {
    /// The content of each choice.
    pub choices: Vec<Option<String>>,
    /// The usage.
    pub usage: Option<Usage>,
}

/// A number, or zero.
pub open spec fn or_zero(n: Option<u64>) -> u64 {
    match n {
        Some(n) => n,
        None => 0,
    }
}

fn count_or_zero(n: Option<u64>) -> (res: u64)
    ensures
        res == or_zero(n),
{
    match n {
        Some(n) => n,
        None => 0,
    }
}

/// Reads a completion from an answer, decoded from JSON or not: the first choice counts, and a
/// missing choice or content is invalid. Usage that is not reported counts zero.
pub fn parse_chat(decoded: &Result<ChatResponse, String>) -> (res: Result<
    CompletionResponse,
    LlmError,
>)
    ensures
        match decoded {
            Err(e) => res matches Err(LlmError::InvalidResponse(m)) && m@
                == "completion response is not valid JSON: "@ + e@,
            Ok(chat) => if chat.choices@.len() == 0 {
                res matches Err(LlmError::InvalidResponse(m)) && m@
                    == "completion response has no choices"@
            } else {
                match chat.choices@[0] {
                    None => res matches Err(LlmError::InvalidResponse(m)) && m@
                        == "completion response has no content"@,
                    Some(text) => res matches Ok(c) && c.text@ == text@ && c.prompt_tokens
                        == or_zero(
                        match chat.usage {
                            Some(u) => u.prompt_tokens,
                            None => None,
                        },
                    ) && c.completion_tokens == or_zero(
                        match chat.usage {
                            Some(u) => u.completion_tokens,
                            None => None,
                        },
                    ),
                }
            },
        },
{
    match decoded {
        Err(e) => {
            let mut s = "completion response is not valid JSON: ".to_owned();
            s.append(e.as_str());
            Err(LlmError::InvalidResponse(s))
        },
        Ok(chat) => {
            if chat.choices.len() == 0 {
                return Err(
                    LlmError::InvalidResponse("completion response has no choices".to_owned()),
                );
            }
            match &chat.choices[0] {
                None => Err(
                    LlmError::InvalidResponse("completion response has no content".to_owned()),
                ),
                Some(text) => {
                    let (prompt, completion) = match &chat.usage {
                        Some(u) => (u.prompt_tokens, u.completion_tokens),
                        None => (None, None),
                    };
                    Ok(
                        CompletionResponse {
                            text: text.clone(),
                            prompt_tokens: count_or_zero(prompt),
                            completion_tokens: count_or_zero(completion),
                        },
                    )
                },
            }
        },
    }
}

/// Decides on the status of a completion: only a success is read.
pub fn completion_outcome(status: u16, model: &str) -> (res: Result<(), LlmError>)
    ensures
        if status == 200 {
            res is Ok
        } else if status == 429 {
            res matches Err(LlmError::RateLimited)
        } else if status == 404 {
            res matches Err(LlmError::Unavailable(m)) && m@ == "model "@ + debug_form(model@)
                + " not found on the endpoint"@
        } else {
            res matches Err(LlmError::Unavailable(m)) && m@
                == "completion endpoint answered HTTP "@ + decimal(status as nat)
        },
{
    if status == 200 {
        Ok(())
    } else if status == 429 {
        Err(LlmError::RateLimited)
    } else if status == 404 {
        let mut s = "model ".to_owned();
        s.append(debug_string(model).as_str());
        s.append(" not found on the endpoint");
        Err(LlmError::Unavailable(s))
    } else {
        let mut s = "completion endpoint answered HTTP ".to_owned();
        s.append(decimal_string(status as u64).as_str());
        Err(LlmError::Unavailable(s))
    }
}

/// What an endpoint answers decides: only `200` is read, `429` asks to slow down, and anything else is
/// unavailability; of an answer the first choice counts, and one without a choice or without content is
/// invalid.
pub proof fn law_endpoint_answers_decide(
    status: u16,
    model: &str,
    probe: Result<(), LlmError>,
    completion: Result<(), LlmError>,
    decoded: &Result<ChatResponse, String>,
    parsed: Result<CompletionResponse, LlmError>,
)
    requires
        call_ensures(probe_outcome, (status,), probe),
        call_ensures(completion_outcome, (status, model), completion),
        call_ensures(parse_chat, (decoded,), parsed),
    ensures
        probe is Ok <==> status == 200,
        completion is Ok <==> status == 200,
        (probe matches Err(LlmError::RateLimited)) <==> status == 429,
        (completion matches Err(LlmError::RateLimited)) <==> status == 429,
        status != 200 && status != 429 ==> (completion matches Err(LlmError::Unavailable(_))) && (
        probe matches Err(LlmError::Unavailable(_))),
        parsed is Ok <==> (decoded matches Ok(chat) && chat.choices@.len() > 0 && chat.choices@[0] is Some),
        parsed matches Ok(c) ==> c.text@ == decoded->Ok_0.choices@[0]->0@,
        parsed matches Ok(c) ==> (decoded->Ok_0.usage matches Some(u) ==> (u.prompt_tokens matches Some(n)
            ==> c.prompt_tokens == n) && (u.completion_tokens matches Some(n) ==> c.completion_tokens
            == n)),
        parsed matches Ok(c) ==> decoded->Ok_0.usage is None ==> c.prompt_tokens == 0
            && c.completion_tokens == 0,
        parsed matches Err(e) ==> e is InvalidResponse,
{
}

/// A completion is asked for as it was requested: the prompt is the message of the user, the model and the
/// bounds are those of the request, and a schema is enforced exactly where one is given.
pub proof fn law_requests_ask_what_was_asked(req: &CompletionRequest, res: ChatRequest)
    requires
        call_ensures(chat_request, (req,), res),
    ensures
        res.model@ == req.model@,
        res.content@ == req.prompt@,
        res.role@ == "user"@,
        res.temperature_bits == req.temperature_bits,
        res.max_tokens == req.max_tokens,
        res.response_format is Some <==> req.json_schema is Some,
        res.response_format matches Some(f) ==> f.schema@ == req.json_schema->0@ && f.strict,
{
}

} // verus!
