//! The language-model client: request building and prompt assembly.  The
//! process that executes completions lives outside; this module prepares
//! exactly what is handed to it.

use vstd::prelude::*;
use vstd::string::StringExecFns;
use crate::text::{contains_seq, contains_sub, chars_of, lower_seq, to_lower};

verus! {

/// A request to the text-generation collaborator.
#[derive(Debug, Clone)]
pub struct GeminiRequest {
    /// The model to use.
    pub model: String,
    /// The prompt to send.
    pub prompt: String,
    /// Optional system prompt.
    pub system_prompt: Option<String>,
    /// Maximum tokens in the response.
    pub max_tokens: Option<u32>,
    /// Whether to request JSON output.
    pub json_output: bool,
}

impl GeminiRequest {
    /// A plain text request.
    pub fn new(model: &str, prompt: &str) -> (r: GeminiRequest)
        ensures
            r.model@ == model@,
            r.prompt@ == prompt@,
            r.system_prompt is None,
            r.max_tokens is None,
            !r.json_output,
    {
        GeminiRequest {
            model: String::from_str(model),
            prompt: String::from_str(prompt),
            system_prompt: None,
            max_tokens: None,
            json_output: false,
        }
    }

    /// The same request with a system prompt.
    pub fn with_system_prompt(self, system_prompt: &str) -> (r: GeminiRequest)
        ensures
            r.model == self.model,
            r.prompt == self.prompt,
            r.system_prompt matches Some(s) && s@ == system_prompt@,
            r.max_tokens == self.max_tokens,
            r.json_output == self.json_output,
    {
        GeminiRequest { system_prompt: Some(String::from_str(system_prompt)), ..self }
    }

    /// The same request with a response-token cap.
    pub fn with_max_tokens(self, max_tokens: u32) -> (r: GeminiRequest)
        ensures
            r.model == self.model,
            r.prompt == self.prompt,
            r.system_prompt == self.system_prompt,
            r.max_tokens == Some(max_tokens),
            r.json_output == self.json_output,
    {
        GeminiRequest { max_tokens: Some(max_tokens), ..self }
    }

    /// The same request, asking for JSON output.
    pub fn with_json_output(self) -> (r: GeminiRequest)
        ensures
            r.model == self.model,
            r.prompt == self.prompt,
            r.system_prompt == self.system_prompt,
            r.max_tokens == self.max_tokens,
            r.json_output,
    {
        GeminiRequest { json_output: true, ..self }
    }

    /// Rough input-token estimate: one token per four characters of the
    /// prompt and the system prompt together.
    pub fn estimate_input_tokens(&self) -> (r: u32)
        ensures
            r == ((((self.prompt@.len() + (match self.system_prompt {
                Some(s) => s@.len(),
                None => 0nat,
            })) as int) / 4) as u32),
    {
        let p = self.prompt.as_str().unicode_len();
        let s: usize = match &self.system_prompt {
            Some(sp) => sp.as_str().unicode_len(),
            None => 0,
        };
        let total: u128 = (p as u128) + (s as u128);
        #[verifier::truncate] ((total / 4) as u32)
    }
}

/// The client of the text-generation collaborator: which binary to run, the
/// default model, an optional default system prompt, and a timeout.
#[derive(Debug, Clone)]
pub struct GeminiClient {
    /// Path to the collaborator's binary.
    pub binary_path: String,
    /// Default model to use.
    pub default_model: String,
    /// Default system prompt.
    pub default_system_prompt: Option<String>,
    /// Timeout in seconds; zero means no timeout.
    pub timeout_secs: u64,
}

impl GeminiClient {
    /// A client for the given binary and model, five-minute timeout.
    pub fn new(binary_path: &str, default_model: &str) -> (r: GeminiClient)
        ensures
            r.binary_path@ == binary_path@,
            r.default_model@ == default_model@,
            r.default_system_prompt is None,
            r.timeout_secs == 300,
    {
        GeminiClient {
            binary_path: String::from_str(binary_path),
            default_model: String::from_str(default_model),
            default_system_prompt: None,
            timeout_secs: 300,
        }
    }

    /// The same client with a default system prompt.
    pub fn with_system_prompt(self, prompt: &str) -> (r: GeminiClient)
        ensures
            r.binary_path == self.binary_path,
            r.default_model == self.default_model,
            r.default_system_prompt matches Some(s) && s@ == prompt@,
            r.timeout_secs == self.timeout_secs,
    {
        GeminiClient { default_system_prompt: Some(String::from_str(prompt)), ..self }
    }

    /// The same client with another timeout.
    pub fn with_timeout(self, secs: u64) -> (r: GeminiClient)
        ensures
            r.binary_path == self.binary_path,
            r.default_model == self.default_model,
            r.default_system_prompt == self.default_system_prompt,
            r.timeout_secs == secs,
    {
        GeminiClient { timeout_secs: secs, ..self }
    }

    /// The full prompt: the request's system prompt (or else the client's
    /// default one) ahead of the request prompt, separated by a blank line.
    pub fn build_prompt(&self, req: &GeminiRequest) -> (r: String)
        ensures
            r@ == match req.system_prompt {
                Some(s) => s@ + "\n\n"@ + req.prompt@,
                None => match self.default_system_prompt {
                    Some(s) => s@ + "\n\n"@ + req.prompt@,
                    None => req.prompt@,
                },
            },
    {
        let system: Option<&String> = match &req.system_prompt {
            Some(s) => Some(s),
            None => match &self.default_system_prompt {
                Some(s) => Some(s),
                None => None,
            },
        };
        match system {
            Some(sys) => {
                let mut r = sys.clone();
                r.append("\n\n");
                r.append(req.prompt.as_str());
                r
            },
            None => req.prompt.clone(),
        }
    }
}

impl Default for GeminiClient {
    /// The `gemini` binary with the `gemini-2.5-pro` model.
    fn default() -> (r: GeminiClient)
        ensures
            r.binary_path@ == "gemini"@,
            r.default_model@ == "gemini-2.5-pro"@,
            r.default_system_prompt is None,
            r.timeout_secs == 300,
    {
        GeminiClient::new("gemini", "gemini-2.5-pro")
    }
}

/// The prompt sent when JSON output is expected: unchanged when it already
/// speaks of JSON (in any ASCII case), otherwise extended by an explicit
/// instruction to answer with bare JSON.
pub fn ensure_json_instruction(prompt: &str) -> (r: String)
    ensures
        contains_seq(lower_seq(prompt@), "json"@) ==> r@ == prompt@,
        !contains_seq(lower_seq(prompt@), "json"@) ==> r@ == prompt@
            + "\n\nRespond with valid JSON only. Do not include markdown code fences or any other text."@,
{
    let pchars = chars_of(prompt);
    let plow = to_lower(&pchars);
    let needle = chars_of("json");
    if contains_sub(&plow, &needle) {
        String::from_str(prompt)
    } else {
        let mut r = String::from_str(prompt);
        r.append(
            "\n\nRespond with valid JSON only. Do not include markdown code fences or any other text.",
        );
        r
    }
}

} // verus!
