//! Shared data models: request kinds, chat messages, quota status and API
//! error payloads, plus the assembly of a chat conversation into one prompt.

use vstd::prelude::*;
use vstd::string::StringExecFns;
use crate::text::{join_with, str_eq, str_views};

verus! {

/// Types of requests the assistant can handle.
#[derive(Debug, Clone, PartialEq, Eq)]
pub enum RequestKind {
    Ask,
    Json,
    Chat,
    Transform,
    SummarizePdf,
    SummarizeBook,
    RepoSummary,
    Template,
    Custom(String),
}

/// The wire name of a request kind.
pub open spec fn kind_name(k: RequestKind) -> Seq<char> {
    match k {
        RequestKind::Ask => "ask"@,
        RequestKind::Json => "json"@,
        RequestKind::Chat => "chat"@,
        RequestKind::Transform => "transform"@,
        RequestKind::SummarizePdf => "summarize_pdf"@,
        RequestKind::SummarizeBook => "summarize_book"@,
        RequestKind::RepoSummary => "repo_summary"@,
        RequestKind::Template => "template"@,
        RequestKind::Custom(s) => "custom:"@ + s@,
    }
}

impl RequestKind {
    /// The wire name: a custom kind is prefixed with `custom:`.
    pub fn name(&self) -> (r: String)
        ensures
            r@ == kind_name(*self),
    {
        match self {
            RequestKind::Ask => String::from_str("ask"),
            RequestKind::Json => String::from_str("json"),
            RequestKind::Chat => String::from_str("chat"),
            RequestKind::Transform => String::from_str("transform"),
            RequestKind::SummarizePdf => String::from_str("summarize_pdf"),
            RequestKind::SummarizeBook => String::from_str("summarize_book"),
            RequestKind::RepoSummary => String::from_str("repo_summary"),
            RequestKind::Template => String::from_str("template"),
            RequestKind::Custom(s) => {
                let mut r = String::from_str("custom:");
                r.append(s.as_str());
                r
            },
        }
    }

    /// The kind named `s`; an unknown name becomes a custom kind.
    pub fn parse(s: &str) -> (r: RequestKind)
        ensures
            s@ == "ask"@ ==> r == RequestKind::Ask,
            s@ == "json"@ ==> r == RequestKind::Json,
            s@ == "chat"@ ==> r == RequestKind::Chat,
            s@ == "transform"@ ==> r == RequestKind::Transform,
            s@ == "summarize_pdf"@ ==> r == RequestKind::SummarizePdf,
            s@ == "summarize_book"@ ==> r == RequestKind::SummarizeBook,
            s@ == "repo_summary"@ ==> r == RequestKind::RepoSummary,
            s@ == "template"@ ==> r == RequestKind::Template,
    {
        proof {
            reveal_strlit("ask");
            reveal_strlit("json");
            reveal_strlit("chat");
            reveal_strlit("transform");
            reveal_strlit("summarize_pdf");
            reveal_strlit("summarize_book");
            reveal_strlit("repo_summary");
            reveal_strlit("template");
            assert("ask"@.len() == 3);
            assert("json"@.len() == 4);
            assert("chat"@.len() == 4);
            assert("transform"@.len() == 9);
            assert("summarize_pdf"@.len() == 13);
            assert("summarize_book"@.len() == 14);
            assert("repo_summary"@.len() == 12);
            assert("template"@.len() == 8);
            assert("json"@[0] == 'j' && "chat"@[0] == 'c');
            assert("json"@ != "chat"@);
        }
        if str_eq(s, "ask") {
            RequestKind::Ask
        } else if str_eq(s, "json") {
            RequestKind::Json
        } else if str_eq(s, "chat") {
            RequestKind::Chat
        } else if str_eq(s, "transform") {
            RequestKind::Transform
        } else if str_eq(s, "summarize_pdf") {
            RequestKind::SummarizePdf
        } else if str_eq(s, "summarize_book") {
            RequestKind::SummarizeBook
        } else if str_eq(s, "repo_summary") {
            RequestKind::RepoSummary
        } else if str_eq(s, "template") {
            RequestKind::Template
        } else {
            RequestKind::Custom(String::from_str(s))
        }
    }
}

/// One message of a chat conversation.
#[derive(Debug, Clone)]
pub struct ChatMessage {
    pub role: String,
    pub content: String,
}

impl ChatMessage {
    /// A message with the `system` role.
    pub fn system(content: &str) -> (r: ChatMessage)
        ensures
            r.role@ == "system"@,
            r.content@ == content@,
    {
        ChatMessage { role: String::from_str("system"), content: String::from_str(content) }
    }

    /// A message with the `user` role.
    pub fn user(content: &str) -> (r: ChatMessage)
        ensures
            r.role@ == "user"@,
            r.content@ == content@,
    {
        ChatMessage { role: String::from_str("user"), content: String::from_str(content) }
    }

    /// A message with the `assistant` role.
    pub fn assistant(content: &str) -> (r: ChatMessage)
        ensures
            r.role@ == "assistant"@,
            r.content@ == content@,
    {
        ChatMessage { role: String::from_str("assistant"), content: String::from_str(content) }
    }
}

/// A chat completion answer.
#[derive(Debug, Clone)]
pub struct ChatCompletionResponse {
    pub id: String,
    pub object: String,
    pub created: i64,
    pub model: String,
    pub choices: Vec<Choice>,
    pub usage: Option<Usage>,
}

/// One choice of a chat completion answer.
#[derive(Debug, Clone)]
pub struct Choice {
    pub index: u32,
    pub message: ChatMessage,
    pub finish_reason: String,
}

/// Token usage accounting.
#[derive(Debug, Clone)]
pub struct Usage {
    pub prompt_tokens: u32,
    pub completion_tokens: u32,
    pub total_tokens: u32,
}

/// Quota standing reported to clients.
#[derive(Debug, Clone)]
pub struct QuotaStatus {
    pub requests_today: u32,
    pub requests_per_day_limit: u32,
    pub requests_last_minute: u32,
    pub requests_per_minute_limit: u32,
    pub approx_input_tokens_today: u32,
    pub approx_output_tokens_today: u32,
    pub last_error: Option<String>,
    pub reset_time: String,
}

/// An API error payload.
#[derive(Debug, Clone)]
pub struct ApiError {
    pub error: ApiErrorDetail,
}

/// The body of an API error payload.
#[derive(Debug, Clone)]
pub struct ApiErrorDetail {
    pub message: String,
    pub kind: String,
    pub code: Option<String>,
}

impl ApiError {
    /// An error with the given message and kind, and no code.
    pub fn new(message: &str, error_type: &str) -> (r: ApiError)
        ensures
            r.error.message@ == message@,
            r.error.kind@ == error_type@,
            r.error.code is None,
    {
        ApiError {
            error: ApiErrorDetail {
                message: String::from_str(message),
                kind: String::from_str(error_type),
                code: None,
            },
        }
    }

    /// The same error, with a code attached.
    pub fn with_code(self, code: &str) -> (r: ApiError)
        ensures
            r.error.message == self.error.message,
            r.error.kind == self.error.kind,
            r.error.code matches Some(c) && c@ == code@,
    {
        ApiError {
            error: ApiErrorDetail {
                message: self.error.message,
                kind: self.error.kind,
                code: Some(String::from_str(code)),
            },
        }
    }

    /// An `invalid_request_error` error.
    pub fn invalid_request(message: &str) -> (r: ApiError)
        ensures
            r.error.message@ == message@,
            r.error.kind@ == "invalid_request_error"@,
            r.error.code is None,
    {
        ApiError::new(message, "invalid_request_error")
    }

    /// A `quota_exceeded` error, coded `rate_limit_exceeded`.
    pub fn quota_exceeded(message: &str) -> (r: ApiError)
        ensures
            r.error.message@ == message@,
            r.error.kind@ == "quota_exceeded"@,
            r.error.code matches Some(c) && c@ == "rate_limit_exceeded"@,
    {
        ApiError::new(message, "quota_exceeded").with_code("rate_limit_exceeded")
    }

    /// An `internal_error` error.
    pub fn internal_error(message: &str) -> (r: ApiError)
        ensures
            r.error.message@ == message@,
            r.error.kind@ == "internal_error"@,
            r.error.code is None,
    {
        ApiError::new(message, "internal_error")
    }
}

/// A health-check answer.
#[derive(Debug, Clone)]
pub struct HealthResponse {
    pub status: String,
    pub version: String,
    pub gemini_available: bool,
}

/// Whether a message carries the `system` role.
pub open spec fn msg_is_system(m: ChatMessage) -> bool {
    m.role@ == "system"@
}

/// The line a message contributes to the conversation transcript.
pub open spec fn line_of(m: ChatMessage) -> Seq<char> {
    if m.role@ == "user"@ {
        "User: "@ + m.content@
    } else if m.role@ == "assistant"@ {
        "Assistant: "@ + m.content@
    } else {
        m.content@
    }
}

/// The transcript lines of the non-system messages, in order.
pub open spec fn convo_lines(ms: Seq<ChatMessage>) -> Seq<Seq<char>> {
    ms.filter(|m: ChatMessage| !msg_is_system(m)).map_values(|m: ChatMessage| line_of(m))
}

/// The content of the last system message, if any.
pub open spec fn last_system(ms: Seq<ChatMessage>) -> Option<Seq<char>>
    decreases ms.len(),
{
    if ms.len() == 0 {
        None
    } else if msg_is_system(ms.last()) {
        Some(ms.last().content@)
    } else {
        last_system(ms.drop_last())
    }
}

/// One message extends the transcript by its line, unless it is a system
/// message.
proof fn lemma_convo_push(ms: Seq<ChatMessage>, m: ChatMessage)
    ensures
        msg_is_system(m) ==> convo_lines(ms.push(m)) == convo_lines(ms),
        !msg_is_system(m) ==> convo_lines(ms.push(m)) == convo_lines(ms).push(line_of(m)),
{
    broadcast use vstd::seq_lib::group_filter_ensures;

    let pred = |x: ChatMessage| !msg_is_system(x);
    assert(ms.push(m) =~= ms + seq![m]);
    Seq::filter_distributes_over_add(ms, seq![m], pred);
    reveal(Seq::filter);
    assert(seq![m].drop_last() =~= Seq::<ChatMessage>::empty());
    assert(Seq::<ChatMessage>::empty().filter(pred) =~= Seq::<ChatMessage>::empty());
    if msg_is_system(m) {
        assert(seq![m].filter(pred) =~= Seq::<ChatMessage>::empty());
        assert(ms.filter(pred) + Seq::<ChatMessage>::empty() =~= ms.filter(pred));
    } else {
        assert(seq![m].filter(pred) =~= seq![m]);
        assert(convo_lines(ms.push(m)) =~= convo_lines(ms).push(line_of(m)));
    }
}

/// Flatten a conversation into an optional system prompt and one user prompt.
///
/// The system prompt is the content of the last system message.  The user
/// prompt is the content of a lone trailing user message, or else the
/// `User:`/`Assistant:` transcript of the non-system messages joined by blank
/// lines.
pub fn messages_to_prompt(messages: &Vec<ChatMessage>) -> (r: (Option<String>, String))
    ensures
        match r.0 {
            Some(s) => last_system(messages@) == Some(s@),
            None => last_system(messages@) is None,
        },
        r.1@ == if convo_lines(messages@).len() == 1 && messages@.len() > 0
            && messages@.last().role@ == "user"@ {
            messages@.last().content@
        } else {
            join_with(convo_lines(messages@), "\n\n"@)
        },
{
    let n = messages.len();
    let mut system_prompt: Option<String> = None;
    let mut lines: Vec<String> = Vec::new();
    let mut i: usize = 0;
    proof {
        assert(messages@.subrange(0, 0) =~= Seq::<ChatMessage>::empty());
        reveal(Seq::filter);
        assert(convo_lines(messages@.subrange(0, 0)) =~= str_views(lines@));
    }
    while i < n
        invariant
            n == messages@.len(),
            i <= n,
            str_views(lines@) == convo_lines(messages@.subrange(0, i as int)),
            match system_prompt {
                Some(s) => last_system(messages@.subrange(0, i as int)) == Some(s@),
                None => last_system(messages@.subrange(0, i as int)) is None,
            },
        decreases n - i,
    {
        let m = &messages[i];
        let ghost prefix = messages@.subrange(0, i as int);
        proof {
            let ghost full = messages@.subrange(0, i as int + 1);
            assert(full =~= prefix.push(messages@[i as int]));
            assert(full.drop_last() =~= prefix);
            assert(full.last() == messages@[i as int]);
            lemma_convo_push(prefix, messages@[i as int]);
        }
        if str_eq(m.role.as_str(), "system") {
            system_prompt = Some(m.content.clone());
        } else if str_eq(m.role.as_str(), "user") {
            let mut line = String::from_str("User: ");
            line.append(m.content.as_str());
            let ghost pre_lines = lines@;
            lines.push(line);
            proof {
                lemma_str_views_push_here(pre_lines, lines@.last());
            }
        } else if str_eq(m.role.as_str(), "assistant") {
            let mut line = String::from_str("Assistant: ");
            line.append(m.content.as_str());
            let ghost pre_lines = lines@;
            lines.push(line);
            proof {
                lemma_str_views_push_here(pre_lines, lines@.last());
            }
        } else {
            let line = m.content.clone();
            let ghost pre_lines = lines@;
            lines.push(line);
            proof {
                lemma_str_views_push_here(pre_lines, lines@.last());
            }
        }
        i = i + 1;
    }
    proof {
        assert(messages@.subrange(0, n as int) =~= messages@);
    }
    let user_prompt: String = if lines.len() == 1 && n > 0 {
        let last = &messages[n - 1];
        if str_eq(last.role.as_str(), "user") {
            last.content.clone()
        } else {
            crate::text::join_strings(&lines, "\n\n")
        }
    } else {
        crate::text::join_strings(&lines, "\n\n")
    };
    (system_prompt, user_prompt)
}

/// `str_views` commutes with `push`.
proof fn lemma_str_views_push_here(s: Seq<String>, p: String)
    ensures
        str_views(s.push(p)) == str_views(s).push(p@),
{
    crate::text::lemma_str_views_push(s, p);
}

} // verus!
