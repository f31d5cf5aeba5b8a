use openrouter::chat::{build_chat_request, Message};
use openrouter::models::{build_models_url, filter_models, Model};
use openrouter::stream::{drain_stream_buffer, parse_stream_line, Json, StreamStats};

fn model(id: &str, name: &str) -> Model {
    Model {
        id: id.to_string(),
        name: name.to_string(),
        context_length: None,
        pricing: None,
    }
}

#[test]
fn build_models_url_includes_optional_category() {
    assert_eq!(
        build_models_url(None),
        "https://openrouter.ai/api/v1/models"
    );
    assert_eq!(
        build_models_url(Some("programming")),
        "https://openrouter.ai/api/v1/models?category=programming"
    );
}

#[test]
fn filter_models_matches_id_or_name_case_insensitively() {
    let models = vec![
        model("anthropic/opus-4.5", "Opus"),
        model("openai/gpt-5.5", "GPT"),
        model("deepseek/deepseek-v4-flash", "DeepSeek Flash"),
    ];

    let by_name = filter_models(models, Some("flash"));

    assert_eq!(by_name.len(), 1);
    assert_eq!(by_name[0].id, "deepseek/deepseek-v4-flash");
}

#[test]
fn filter_models_without_search_returns_all_models() {
    let models = vec![model("openai/gpt-5.5", "GPT")];

    let filtered = filter_models(models, None);

    assert_eq!(filtered.len(), 1);
    assert_eq!(filtered[0].name, "GPT");
}

#[test]
fn build_chat_request_adds_system_message_before_user_message() {
    let request = build_chat_request(
        "openai/gpt-5.5".to_string(),
        "Hello".to_string(),
        Some("Be terse".to_string()),
        128,
        true,
    );

    assert_eq!(request.model, "openai/gpt-5.5");
    assert_eq!(request.max_tokens, 128);
    assert!(request.stream);
    assert_eq!(
        request.messages,
        vec![
            Message {
                role: "system".to_string(),
                content: Some("Be terse".to_string()),
            },
            Message {
                role: "user".to_string(),
                content: Some("Hello".to_string()),
            },
        ]
    );
}

#[test]
fn build_chat_request_omits_empty_system_message() {
    let request = build_chat_request("model".to_string(), "Prompt".to_string(), None, 64, false);

    assert_eq!(
        request.messages,
        vec![Message {
            role: "user".to_string(),
            content: Some("Prompt".to_string()),
        }]
    );
    assert!(!request.stream);
}

#[test]
fn parse_stream_line_extracts_content_and_usage() {
    let mut stats = StreamStats::default();
    let line = r#"data: {"usage":{"prompt_tokens":5,"completion_tokens":8},"choices":[{"delta":{"content":"Hi"}}]}"#;

    let content = parse_stream_line(line, &mut stats);

    assert_eq!(content.as_deref(), Some("Hi"));
    assert_eq!(
        stats,
        StreamStats {
            prompt_tokens: 5,
            completion_tokens: 8,
        }
    );
}

#[test]
fn parse_stream_line_ignores_non_data_and_done_lines() {
    let mut stats = StreamStats {
        prompt_tokens: 3,
        completion_tokens: 4,
    };

    assert_eq!(parse_stream_line("", &mut stats), None);
    assert_eq!(parse_stream_line("event: ping", &mut stats), None);
    assert_eq!(parse_stream_line("data: [DONE]", &mut stats), None);
    assert_eq!(
        stats,
        StreamStats {
            prompt_tokens: 3,
            completion_tokens: 4,
        }
    );
}

#[test]
fn parse_stream_line_keeps_previous_usage_when_missing() {
    let mut stats = StreamStats {
        prompt_tokens: 3,
        completion_tokens: 4,
    };
    let line = r#"data: {"usage":{"prompt_tokens":9},"choices":[{"delta":{}}]}"#;

    let content = parse_stream_line(line, &mut stats);

    assert_eq!(content, None);
    assert_eq!(
        stats,
        StreamStats {
            prompt_tokens: 9,
            completion_tokens: 4,
        }
    );
}

#[test]
fn drain_stream_buffer_preserves_partial_lines_and_writes_content() {
    let mut stats = StreamStats::default();
    let mut buf = String::from("data: {\"choices\":[{\"delta\":{\"content\":\"Hel\"}}]}\n");
    buf.push_str("data: {\"usage\":{\"prompt_tokens\":2,\"completion_tokens\":3},");

    let written = drain_stream_buffer(&mut buf, &mut stats);

    assert_eq!(written.concat(), "Hel");
    assert!(!written.is_empty());
    assert_eq!(stats, StreamStats::default());
    assert_eq!(
        buf,
        "data: {\"usage\":{\"prompt_tokens\":2,\"completion_tokens\":3},"
    );
}
