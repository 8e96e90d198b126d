//! What is decided around a call to a language-model service: which request
//! goes out for a prompt, and which response comes back to the editor. The
//! call itself is made by the application.

use vstd::prelude::*;
use vstd::string::StringExecFns;

verus! {

/// The token limit of a request where the prompt gives none.
pub const DEFAULT_MAX_TOKENS: u32 = 1000;

/// A prompt as the editor submits it.
#[derive(Debug, PartialEq, Eq)]
pub struct AIPrompt {
    pub prompt: String,
    pub model: Option<String>,
    pub max_tokens: Option<u32>,
}

/// The answer that goes back to the editor.
#[derive(Debug, PartialEq, Eq)]
pub struct AIResponse {
    pub content: String,
    pub model: String,
    pub token_count: Option<u32>,
}

/// The request that is sent for a prompt.
#[derive(Debug, PartialEq, Eq)]
pub struct AssistantRequest {
    pub model: String,
    pub prompt: String,
    pub max_tokens: u32,
}

/// Why no request is sent for a prompt.
#[derive(Clone, Copy, Debug, PartialEq, Eq, Structural)]
pub enum AssistantError {
    /// The prompt holds nothing but white space.
    EmptyPrompt,
}

impl AssistantError {
    /// A human-readable description of the error.
    pub fn message(&self) -> (text: String)
        ensures
            text@ == "Prompt cannot be empty"@,
    {
        String::from_str("Prompt cannot be empty")
    }
}

/// The text without the white space at its two ends, as `str::trim` of the
/// standard library gives it.
pub uninterp spec fn trimmed_text(text: Seq<char>) -> Seq<char>;

/// Calls `str::trim`. Trusted: the result is the text without leading and
/// trailing white space.
#[verifier::external_body]
fn trim_text(text: &str) -> (inner: &str)
    ensures
        inner@ == trimmed_text(text@),
{
    text.trim()
}

/// The model that a prompt asks for: the one it names, else `gpt-3.5-turbo`.
pub open spec fn requested_model(model: Option<String>) -> Seq<char> {
    match model {
        Some(name) => name@,
        None => "gpt-3.5-turbo"@,
    }
}

/// The token limit that a prompt asks for: the one it gives, else 1000.
pub open spec fn requested_tokens(max_tokens: Option<u32>) -> u32 {
    match max_tokens {
        Some(n) => n,
        None => DEFAULT_MAX_TOKENS,
    }
}

/// Decides the request for a prompt: the prompt as it is, with the default
/// model and token limit where none is given. A prompt of nothing but white
/// space gets no request.
pub fn prepare_request(prompt_data: AIPrompt) -> (r: Result<AssistantRequest, AssistantError>)
    ensures
        match r {
            Ok(request) => {
                &&& trimmed_text(prompt_data.prompt@).len() > 0
                &&& request.prompt@ == prompt_data.prompt@
                &&& request.model@ == requested_model(prompt_data.model)
                &&& request.max_tokens == requested_tokens(prompt_data.max_tokens)
            },
            Err(e) => e == AssistantError::EmptyPrompt && trimmed_text(prompt_data.prompt@).len()
                == 0,
        },
{
    if trim_text(prompt_data.prompt.as_str()).is_empty() {
        return Err(AssistantError::EmptyPrompt);
    }
    let model = match prompt_data.model {
        Some(name) => name,
        None => String::from_str("gpt-3.5-turbo"),
    };
    let max_tokens = match prompt_data.max_tokens {
        Some(n) => n,
        None => DEFAULT_MAX_TOKENS,
    };
    Ok(AssistantRequest { model, prompt: prompt_data.prompt, max_tokens })
}

/// The token count that is reported for a total the service gave: its low
/// 32 bits.
pub open spec fn reported_tokens(total_tokens: Option<u64>) -> Option<u32> {
    match total_tokens {
        Some(total) => Some((total % 0x1_0000_0000) as u32),
        None => None,
    }
}

/// Puts the response together from what was read out of the service's
/// answer: the content, empty where there was none, the model that was
/// asked, and the token count.
pub fn build_response(
    content: Option<String>,
    model: String,
    total_tokens: Option<u64>,
) -> (response: AIResponse)
    ensures
        response.content@ == match content {
            Some(text) => text@,
            None => Seq::<char>::empty(),
        },
        response.model@ == model@,
        response.token_count == reported_tokens(total_tokens),
{
    let content = match content {
        Some(text) => text,
        None => String::new(),
    };
    let token_count = match total_tokens {
        Some(total) => Some((total % 0x1_0000_0000) as u32),
        None => None,
    };
    AIResponse { content, model, token_count }
}

} // verus!
