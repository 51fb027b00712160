//! Tests of the configuration, chat model, summarization and template types.

use genie_core::api::{format_error_message, CommandError};
use genie_core::config::Config;
use genie_core::docs::{
    document_summary_to_markdown, extract_json, parse_style, split_into_chunks, DocumentSummary,
    SummaryStyle,
};
use genie_core::gemini::{ensure_json_instruction, GeminiClient, GeminiRequest};
use genie_core::model::{messages_to_prompt, ApiError, ChatMessage, RequestKind};
use genie_core::quota::{check_quota, QuotaError, UsageEvent};
use genie_core::templates::{split_frontmatter, InputVar, InputVarType, PromptTemplate};
use genie_core::text::truncate;

#[test]
fn test_default_config() {
    let config = Config::default();
    assert_eq!(config.gemini.binary, "gemini");
    assert_eq!(config.gemini.default_model, "gemini-3-pro-preview");
    assert_eq!(config.server.host, "127.0.0.1");
    assert_eq!(config.server.port, 11435);
    assert_eq!(config.quota.per_minute, 60);
    assert_eq!(config.quota.per_day, 1000);
    // Embeddings defaults
    assert!(config.embeddings.enabled);
    assert_eq!(config.embeddings.model, "all-MiniLM-L6-v2");
}

#[test]
fn test_server_strings() {
    let config = Config::default();
    assert_eq!(config.server_addr(), "127.0.0.1:11435");
    assert_eq!(config.server_url(), "http://127.0.0.1:11435");
}

#[test]
fn test_config_paths_under_home() {
    if let Some(p) = Config::default_config_path() {
        assert!(p.ends_with("/.genie/config.toml"));
    }
    if let Some(p) = Config::default_rag_db_path() {
        assert!(p.ends_with("/.genie/rag.db"));
    }
}

#[test]
fn test_request_kind_display() {
    assert_eq!(RequestKind::Ask.name(), "ask");
    assert_eq!(RequestKind::Json.name(), "json");
    assert_eq!(RequestKind::Custom("test".to_string()).name(), "custom:test");
}

#[test]
fn test_request_kind_parse() {
    assert!(matches!(RequestKind::parse("ask"), RequestKind::Ask));
    assert!(matches!(RequestKind::parse("chat"), RequestKind::Chat));
    assert!(matches!(RequestKind::parse("weird"), RequestKind::Custom(_)));
}

#[test]
fn test_chat_message_constructors() {
    let system = ChatMessage::system("You are helpful");
    assert_eq!(system.role, "system");

    let user = ChatMessage::user("Hello");
    assert_eq!(user.role, "user");

    let assistant = ChatMessage::assistant("Hi there!");
    assert_eq!(assistant.role, "assistant");
}

#[test]
fn test_api_error_codes() {
    let error = ApiError::quota_exceeded("Rate limit exceeded");
    assert_eq!(error.error.kind, "quota_exceeded");
    assert_eq!(error.error.code.as_deref(), Some("rate_limit_exceeded"));
    assert_eq!(error.error.message, "Rate limit exceeded");
    let plain = ApiError::invalid_request("bad");
    assert_eq!(plain.error.kind, "invalid_request_error");
    assert!(plain.error.code.is_none());
}

#[test]
fn test_messages_to_prompt_single() {
    let messages = vec![ChatMessage::user("Hello")];
    let (system, prompt) = messages_to_prompt(&messages);

    assert!(system.is_none());
    assert_eq!(prompt, "Hello");
}

#[test]
fn test_messages_to_prompt_with_system() {
    let messages = vec![
        ChatMessage::system("You are helpful"),
        ChatMessage::user("Hello"),
    ];
    let (system, prompt) = messages_to_prompt(&messages);

    assert_eq!(system, Some("You are helpful".to_string()));
    assert_eq!(prompt, "Hello");
}

#[test]
fn test_messages_to_prompt_conversation() {
    let messages = vec![
        ChatMessage::system("You are helpful"),
        ChatMessage::user("Hello"),
        ChatMessage::assistant("Hi there!"),
        ChatMessage::user("How are you?"),
    ];
    let (system, prompt) = messages_to_prompt(&messages);

    assert_eq!(system, Some("You are helpful".to_string()));
    assert!(prompt.contains("User: Hello"));
    assert!(prompt.contains("Assistant: Hi there!"));
    assert!(prompt.contains("User: How are you?"));
}

#[test]
fn test_client_default() {
    let client = GeminiClient::default();
    assert_eq!(client.binary_path, "gemini");
    assert_eq!(client.default_model, "gemini-2.5-pro");
}

#[test]
fn test_build_prompt_prefers_request_system() {
    let client = GeminiClient::default().with_system_prompt("client default");
    let req = GeminiRequest::new("m", "question").with_system_prompt("from request");
    assert_eq!(client.build_prompt(&req), "from request\n\nquestion");
    let plain = GeminiRequest::new("m", "question");
    assert_eq!(client.build_prompt(&plain), "client default\n\nquestion");
}

#[test]
fn test_json_instruction_added_once() {
    let with = ensure_json_instruction("Give me JSON now");
    assert_eq!(with, "Give me JSON now");
    let without = ensure_json_instruction("Say something");
    assert!(without.starts_with("Say something"));
    assert!(without.contains("Respond with valid JSON only"));
}

#[test]
fn test_summary_prompt_carries_style_and_text() {
    let options = genie_core::docs::SummarizeOptions::new()
        .with_style(SummaryStyle::Detailed)
        .with_language("de");
    let prompt = genie_core::docs::build_summary_prompt(&options, "Body text.");
    assert!(prompt.starts_with("Summarize the following text in detailed style."));
    assert!(prompt.contains("Language: de"));
    assert!(prompt.contains("Body text."));
}

#[test]
fn test_split_into_chunks() {
    let text = "Paragraph one.\n\nParagraph two.\n\nParagraph three.";
    let chunks = split_into_chunks(text, 10); // Very small for testing

    assert!(!chunks.is_empty());
}

#[test]
fn test_extract_json() {
    // Direct JSON
    let json = extract_json(r#"{"key": "value"}"#);
    assert_eq!(json, r#"{"key": "value"}"#);

    // With markdown fence
    let json = extract_json("```json\n{\"key\": \"value\"}\n```");
    assert_eq!(json, r#"{"key": "value"}"#);

    // With text before
    let json = extract_json("Here is the result: {\"key\": \"value\"}");
    assert_eq!(json, r#"{"key": "value"}"#);
}

#[test]
fn test_document_summary_to_markdown() {
    let summary = DocumentSummary {
        title: Some("Test Document".to_string()),
        summary: "This is a test summary.".to_string(),
        key_points: vec!["Point 1".to_string(), "Point 2".to_string()],
        word_count: Some(100),
        page_count: Some(5),
    };

    let md = document_summary_to_markdown(&summary);
    assert!(md.contains("# Test Document"));
    assert!(md.contains("This is a test summary"));
    assert!(md.contains("- Point 1"));
}

#[test]
fn test_parse_style_names() {
    assert!(matches!(parse_style("detailed"), SummaryStyle::Detailed));
    assert!(matches!(parse_style("Exam-Notes"), SummaryStyle::ExamNotes));
    assert!(matches!(parse_style("bullet"), SummaryStyle::Bullet));
    assert!(matches!(parse_style("anything"), SummaryStyle::Concise));
}

#[test]
fn test_split_frontmatter() {
    let content = "---\nname: test\ndescription: A test template\n---\nHello, {{ name }}!";

    let (fm, body) = split_frontmatter(content).unwrap();
    assert!(fm.contains("name: test"));
    assert!(body.contains("Hello"));
}

#[test]
fn test_split_frontmatter_rejects_plain_text() {
    assert!(split_frontmatter("no frontmatter here").is_err());
}

fn sample_template() -> PromptTemplate {
    PromptTemplate {
        name: "test".to_string(),
        description: "Test".to_string(),
        model: None,
        input_variables: vec![InputVar {
            name: "name".to_string(),
            description: String::new(),
            var_type: InputVarType::Text,
            default: Some("World".to_string()),
            required: false,
        }],
        json_output: false,
        body: "Hello, {{ name }}!".to_string(),
        source_path: None,
    }
}

#[test]
fn test_render_template() {
    let template = sample_template();

    // Test with default
    let result = template.render(&vec![], &vec![]).unwrap();
    assert_eq!(result.trim(), "Hello, World!");

    // Test with override
    let vars = vec![("name".to_string(), "Genie".to_string())];
    let result = template.render(&vars, &vec![]).unwrap();
    assert_eq!(result.trim(), "Hello, Genie!");
}

#[test]
fn test_render_rejects_bad_body() {
    let mut template = sample_template();
    template.body = "Hello {{ unclosed".to_string();
    assert!(template.render(&vec![], &vec![]).is_err());
}

#[test]
fn test_validate_variables() {
    let template = PromptTemplate {
        name: "test".to_string(),
        description: "Test".to_string(),
        model: None,
        input_variables: vec![
            InputVar {
                name: "required_var".to_string(),
                description: String::new(),
                var_type: InputVarType::Text,
                default: None,
                required: true,
            },
            InputVar {
                name: "optional_var".to_string(),
                description: String::new(),
                var_type: InputVarType::Text,
                default: Some("default_value".to_string()),
                required: false,
            },
        ],
        json_output: false,
        body: "{{ required_var }} {{ optional_var }}".to_string(),
        source_path: None,
    };

    // Should fail without required variable
    let result = template.validate_variables(&vec![]);
    assert!(result.is_err());

    // Should pass with required variable
    let vars = vec![("required_var".to_string(), "value".to_string())];
    let result = template.validate_variables(&vars);
    assert!(result.is_ok());
}

#[test]
fn test_usage_event_records_kind() {
    let event = UsageEvent::new("gemini-2.5-pro", RequestKind::Ask, 100, 200, true);
    assert_eq!(event.kind, "ask");
    assert_eq!(event.prompt_chars, 100);
    assert_eq!(event.approx_input_tokens, 25);
    assert!(event.success);
    let failed = event.with_error("rate_limit");
    assert!(!failed.success);
    assert_eq!(failed.error_code.as_deref(), Some("rate_limit"));
}

#[test]
fn test_check_quota_limits() {
    assert!(check_quota(0, 0, 60, 1000).is_ok());
    assert!(matches!(
        check_quota(60, 0, 60, 1000),
        Err(QuotaError::QuotaExceeded(_))
    ));
    assert!(matches!(
        check_quota(0, 1000, 60, 1000),
        Err(QuotaError::QuotaExceeded(_))
    ));
}

#[test]
fn test_command_error_with_code() {
    let e = CommandError::new("boom").with_code("bad");
    assert_eq!(e.message, "boom");
    assert_eq!(e.code.as_deref(), Some("bad"));
}

#[test]
fn test_format_error_message_patterns() {
    assert_eq!(format_error_message("HTTP 429 too many"), "429 Rate Limited");
    assert_eq!(
        format_error_message("500 Internal Server Error happened"),
        "500 Internal Server Error - Gemini API failed"
    );
    assert_eq!(format_error_message("plain"), "plain");
}

#[test]
fn test_truncate_adds_ellipsis() {
    assert_eq!(truncate("short", 10), "short");
    let cut = truncate("abcdefghij", 5);
    assert_eq!(cut.chars().count(), 5);
    assert!(cut.ends_with('\u{2026}'));
}
