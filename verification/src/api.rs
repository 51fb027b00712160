//! The plain data types exchanged with the CLI and graphical front ends, and
//! the error formatting they share.

use vstd::prelude::*;
use vstd::string::StringExecFns;
use crate::templates::{InputVar, PromptTemplate};
use crate::text::{chars_of, contains_seq, contains_sub, lower_seq, to_lower, truncate};

verus! {

/// A chat request from a front end.
#[derive(Debug, Clone)]
pub struct ChatRequest {
    pub message: String,
    pub system_prompt: Option<String>,
    pub model: Option<String>,
}

/// A chat answer for a front end.
#[derive(Debug, Clone)]
pub struct ChatResponse {
    pub message: String,
    pub model: String,
    pub tokens_used: u32,
}

/// The configuration shown to a front end.
#[derive(Debug, Clone)]
pub struct AppConfig {
    pub gemini_binary: String,
    pub default_model: String,
    pub server_host: String,
    pub server_port: u16,
    pub quota_per_minute: u32,
    pub quota_per_day: u32,
    pub quota_reset_time: String,
}

/// A health answer for a front end.
#[derive(Debug, Clone)]
pub struct HealthStatus {
    pub status: String,
    pub version: String,
    pub gemini_available: bool,
}

/// A request to summarize one document.
#[derive(Debug, Clone)]
pub struct SummarizePdfRequest {
    pub path: String,
    pub style: Option<String>,
    pub language: Option<String>,
}

/// A request to summarize a book.
#[derive(Debug, Clone)]
pub struct SummarizeBookRequest {
    pub path: String,
    pub style: Option<String>,
    pub language: Option<String>,
    pub use_gemini_chapters: Option<bool>,
}

/// A request to summarize a repository.
#[derive(Debug, Clone)]
pub struct SummarizeRepoRequest {
    pub path: String,
    pub max_files: Option<u32>,
}

/// Quota standing for a front end.
#[derive(Debug, Clone)]
pub struct QuotaStatus {
    pub requests_today: u32,
    pub requests_per_day_limit: u32,
    pub requests_last_minute: u32,
    pub requests_per_minute_limit: u32,
    pub approx_input_tokens_today: u32,
    pub approx_output_tokens_today: u32,
    pub last_error: Option<String>,
    pub reset_time: String,
}

/// One line of the usage log for a front end.
#[derive(Debug, Clone)]
pub struct UsageLogEntry {
    pub id: i64,
    pub timestamp: String,
    pub model: String,
    pub kind: String,
    pub prompt_chars: u32,
    pub response_chars: u32,
    pub approx_input_tokens: u32,
    pub approx_output_tokens: u32,
    pub success: bool,
    pub error_code: Option<String>,
}

/// A template as listed for a front end.
#[derive(Debug, Clone)]
pub struct TemplateInfo {
    pub name: String,
    pub description: String,
    pub model: Option<String>,
    pub json_output: bool,
    pub variables: Vec<VariableInfo>,
}

/// One declared variable as listed for a front end.
#[derive(Debug, Clone)]
pub struct VariableInfo {
    pub name: String,
    pub description: String,
    pub var_type: String,
    pub default: Option<String>,
    pub required: bool,
}

/// A template with its body, as shown to a front end.
#[derive(Debug, Clone)]
pub struct TemplateDetail {
    pub info: TemplateInfo,
    pub body: String,
}

/// A request to run a template.
#[derive(Debug, Clone)]
pub struct RunTemplateRequest {
    pub name: String,
    pub variables: Vec<(String, String)>,
    pub files: Vec<(String, String)>,
}

/// The output of a template run.
#[derive(Debug, Clone)]
pub struct RunTemplateResponse {
    pub output: String,
}

/// An error reported to a front end.
#[derive(Debug, Clone)]
pub struct CommandError {
    pub message: String,
    pub code: Option<String>,
}

impl CommandError {
    /// An error with a message and no code.
    pub fn new(message: &str) -> (r: CommandError)
        ensures
            r.message@ == message@,
            r.code is None,
    {
        CommandError { message: String::from_str(message), code: None }
    }

    /// The same error with a code attached.
    pub fn with_code(self, code: &str) -> (r: CommandError)
        ensures
            r.message == self.message,
            r.code matches Some(c) && c@ == code@,
    {
        CommandError { message: self.message, code: Some(String::from_str(code)) }
    }
}

/// The wire name of a variable type.
pub open spec fn var_type_name(t: crate::templates::InputVarType) -> Seq<char> {
    match t {
        crate::templates::InputVarType::Text => "string"@,
        crate::templates::InputVarType::File => "file"@,
        crate::templates::InputVarType::Number => "number"@,
        crate::templates::InputVarType::Boolean => "boolean"@,
        crate::templates::InputVarType::Choice(_) => "enum"@,
    }
}

/// The listing entry for one declared variable.
fn variable_info_of(v: &InputVar) -> (r: VariableInfo)
    ensures
        r.name@ == v.name@,
        r.description@ == v.description@,
        r.var_type@ == var_type_name(v.var_type),
        crate::rag::opt_str_matches(r.default, v.default),
        r.required == v.required,
{
    let var_type = match &v.var_type {
        crate::templates::InputVarType::Text => String::from_str("string"),
        crate::templates::InputVarType::File => String::from_str("file"),
        crate::templates::InputVarType::Number => String::from_str("number"),
        crate::templates::InputVarType::Boolean => String::from_str("boolean"),
        crate::templates::InputVarType::Choice(_) => String::from_str("enum"),
    };
    VariableInfo {
        name: v.name.clone(),
        description: v.description.clone(),
        var_type,
        default: match &v.default {
            Some(d) => Some(d.clone()),
            None => None,
        },
        required: v.required,
    }
}

/// The listing entry for a template: its metadata and every declared
/// variable, in order.
pub fn template_info_of(t: &PromptTemplate) -> (r: TemplateInfo)
    ensures
        r.name@ == t.name@,
        r.description@ == t.description@,
        crate::rag::opt_str_matches(r.model, t.model),
        r.json_output == t.json_output,
        r.variables@.len() == t.input_variables@.len(),
        forall|k: int|
            0 <= k < r.variables@.len() ==> {
                &&& (#[trigger] r.variables@[k]).name@ == t.input_variables@[k].name@
                &&& r.variables@[k].var_type@ == var_type_name(t.input_variables@[k].var_type)
                &&& r.variables@[k].required == t.input_variables@[k].required
            },
{
    let n = t.input_variables.len();
    let mut variables: Vec<VariableInfo> = Vec::new();
    let mut i: usize = 0;
    while i < n
        invariant
            n == t.input_variables@.len(),
            i <= n,
            variables@.len() == i,
            forall|k: int|
                0 <= k < i ==> {
                    &&& (#[trigger] variables@[k]).name@ == t.input_variables@[k].name@
                    &&& variables@[k].var_type@ == var_type_name(t.input_variables@[k].var_type)
                    &&& variables@[k].required == t.input_variables@[k].required
                },
        decreases n - i,
    {
        variables.push(variable_info_of(&t.input_variables[i]));
        i = i + 1;
    }
    TemplateInfo {
        name: t.name.clone(),
        description: t.description.clone(),
        model: match &t.model {
            Some(m) => Some(m.clone()),
            None => None,
        },
        json_output: t.json_output,
        variables,
    }
}

/// What `format_error_message` answers for a lowered error text.
pub open spec fn formatted_error(low: Seq<char>, original: Seq<char>) -> Seq<char> {
    if contains_seq(low, "500"@) {
        if contains_seq(low, "internal server error"@) {
            "500 Internal Server Error - Gemini API failed"@
        } else {
            "500 Server Error"@
        }
    } else if contains_seq(low, "429"@) || contains_seq(low, "rate limit"@) {
        "429 Rate Limited"@
    } else if contains_seq(low, "401"@) || contains_seq(low, "unauthorized"@) {
        "401 Unauthorized - Check API key"@
    } else if contains_seq(low, "403"@) || contains_seq(low, "forbidden"@) {
        "403 Forbidden"@
    } else if contains_seq(low, "404"@) {
        "404 Not Found"@
    } else if contains_seq(low, "timeout"@) {
        "Request Timeout"@
    } else if contains_seq(low, "connection"@) {
        "Connection Error"@
    } else if original.len() <= 40 {
        original
    } else {
        original.subrange(0, 39).push('\u{2026}')
    }
}

/// Shorten an error text for display: well-known failure patterns become a
/// fixed label, anything else is cut to forty characters.
pub fn format_error_message(error: &str) -> (r: String)
    ensures
        r@ == formatted_error(lower_seq(error@), error@),
{
    let v = chars_of(error);
    let low = to_lower(&v);
    if contains_sub(&low, &chars_of("500")) {
        if contains_sub(&low, &chars_of("internal server error")) {
            return String::from_str("500 Internal Server Error - Gemini API failed");
        }
        return String::from_str("500 Server Error");
    }
    if contains_sub(&low, &chars_of("429")) || contains_sub(&low, &chars_of("rate limit")) {
        return String::from_str("429 Rate Limited");
    }
    if contains_sub(&low, &chars_of("401")) || contains_sub(&low, &chars_of("unauthorized")) {
        return String::from_str("401 Unauthorized - Check API key");
    }
    if contains_sub(&low, &chars_of("403")) || contains_sub(&low, &chars_of("forbidden")) {
        return String::from_str("403 Forbidden");
    }
    if contains_sub(&low, &chars_of("404")) {
        return String::from_str("404 Not Found");
    }
    if contains_sub(&low, &chars_of("timeout")) {
        return String::from_str("Request Timeout");
    }
    if contains_sub(&low, &chars_of("connection")) {
        return String::from_str("Connection Error");
    }
    truncate(error, 40)
}

} // verus!
