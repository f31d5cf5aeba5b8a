use openrouter::chat::{
    build_chat_request, chat_completions_url, reply_text, reply_token_counts, usage_line,
    ChatResponse, Choice, Message, Usage,
};
use openrouter::models::{
    build_models_url, filter_models, model_line, models_found_line, search_hit, Model, Pricing,
};
use openrouter::stream::{
    drain_stream_buffer, json_at, json_get, parse_json, parse_stream_line, stream_content,
    update_stream_stats, Json, StreamStats,
};
use openrouter::text::{
    chars_eq, chars_of, contains, decimal_string, push_padded_end, push_padded_start, starts_with,
    string_of, trimmed_range,
};

fn fixed_price(_: &str) -> String {
    "$3.00".to_string()
}

fn priced_model(id: &str, ctx: Option<u64>) -> Model {
    Model {
        id: id.to_string(),
        name: "Some Model".to_string(),
        context_length: ctx,
        pricing: Some(Pricing {
            prompt: "0.000003".to_string(),
            completion: "0.000015".to_string(),
        }),
    }
}

#[test]
fn search_text_is_lowercased_before_matching() {
    let models = vec![
        Model { id: "a/one".to_string(), name: "DeepSeek Flash".to_string(), context_length: None, pricing: None },
        Model { id: "b/two".to_string(), name: "GPT".to_string(), context_length: None, pricing: None },
    ];
    let kept = filter_models(models, Some("FLASH"));
    assert_eq!(kept.len(), 1);
    assert_eq!(kept[0].id, "a/one");
}

#[test]
fn search_matches_the_id_too_and_keeps_order() {
    let models = vec![
        Model { id: "openai/gpt-5.5".to_string(), name: "GPT".to_string(), context_length: None, pricing: None },
        Model { id: "x/y".to_string(), name: "Other".to_string(), context_length: None, pricing: None },
        Model { id: "openai/o3".to_string(), name: "O3".to_string(), context_length: None, pricing: None },
    ];
    let kept = filter_models(models, Some("OpenAI/"));
    assert_eq!(kept.len(), 2);
    assert_eq!(kept[0].id, "openai/gpt-5.5");
    assert_eq!(kept[1].id, "openai/o3");
}

#[test]
fn empty_search_text_keeps_every_model() {
    let models = vec![
        Model { id: "a".to_string(), name: "A".to_string(), context_length: None, pricing: None },
        Model { id: "b".to_string(), name: "B".to_string(), context_length: None, pricing: None },
    ];
    assert_eq!(filter_models(models, Some("")).len(), 2);
}

#[test]
fn search_hit_reads_name_then_id() {
    assert!(search_hit("deepseek flash", "x", "flash"));
    assert!(search_hit("x", "deepseek/flash", "flash"));
    assert!(!search_hit("gpt", "openai/gpt", "flash"));
    assert!(search_hit("", "", ""));
}

#[test]
fn searching_twice_changes_nothing() {
    let models = vec![
        Model { id: "a/flash".to_string(), name: "A".to_string(), context_length: None, pricing: None },
        Model { id: "b".to_string(), name: "B".to_string(), context_length: None, pricing: None },
    ];
    let once = filter_models(models, Some("flash"));
    let ids: Vec<String> = once.iter().map(|m| m.id.clone()).collect();
    let twice = filter_models(once, Some("flash"));
    let ids2: Vec<String> = twice.iter().map(|m| m.id.clone()).collect();
    assert_eq!(ids, ids2);
}

#[test]
fn chat_url_is_under_the_api_base() {
    assert_eq!(
        chat_completions_url(),
        "https://openrouter.ai/api/v1/chat/completions"
    );
}

#[test]
fn models_url_keeps_category_text_as_given() {
    assert_eq!(
        build_models_url(Some("a b&c")),
        "https://openrouter.ai/api/v1/models?category=a b&c"
    );
}

#[test]
fn heading_counts_models_in_decimal() {
    assert_eq!(models_found_line(0), "Found 0 models\n");
    assert_eq!(models_found_line(1234567), "Found 1234567 models\n");
    assert_eq!(
        models_found_line(u64::MAX),
        "Found 18446744073709551615 models\n"
    );
}

#[test]
fn decimal_rendering() {
    assert_eq!(decimal_string(0), "0");
    assert_eq!(decimal_string(9), "9");
    assert_eq!(decimal_string(10), "10");
    assert_eq!(decimal_string(1205), "1205");
}

#[test]
fn model_line_without_context_or_prices() {
    let m = Model {
        id: "openai/gpt-5.5".to_string(),
        name: "GPT".to_string(),
        context_length: None,
        pricing: None,
    };
    let expected = format!("{:50}  {:>10}", "openai/gpt-5.5", "");
    assert_eq!(model_line(&m, true, &fixed_price), expected);
}

#[test]
fn model_line_with_context_and_prices() {
    let m = priced_model("anthropic/opus-4.5", Some(200000));
    let expected = format!(
        "{:50}  {:>7}k ctx  {:>8}/M in  {:>8}/M out",
        "anthropic/opus-4.5", 200, "$3.00", "$3.00"
    );
    assert_eq!(model_line(&m, true, &fixed_price), expected);
}

#[test]
fn model_line_hides_prices_unless_asked() {
    let m = priced_model("x/y", Some(999));
    let expected = format!("{:50}  {:>7}k ctx", "x/y", 0);
    assert_eq!(model_line(&m, false, &fixed_price), expected);
}

#[test]
fn model_line_keeps_a_long_id_whole() {
    let id = "a".repeat(60);
    let m = priced_model(&id, Some(12345678));
    let expected = format!("{}  {:>7}k ctx", id, 12345);
    assert_eq!(model_line(&m, false, &fixed_price), expected);
}

#[test]
fn padding_counts_characters() {
    let mut s = String::new();
    push_padded_end(&mut s, "é", 3);
    assert_eq!(s, "é  ");
    let mut t = String::new();
    push_padded_start(&mut t, "ab", 5);
    assert_eq!(t, "   ab");
    let mut u = String::new();
    push_padded_start(&mut u, "abcdef", 5);
    assert_eq!(u, "abcdef");
}

#[test]
fn substring_search_edges() {
    let text = chars_of("hello");
    assert!(contains(&text, &chars_of("")));
    assert!(contains(&text, &chars_of("hello")));
    assert!(contains(&text, &chars_of("llo")));
    assert!(!contains(&text, &chars_of("hello!")));
    assert!(!contains(&text, &chars_of("lo!")));
    assert!(starts_with(&text, &chars_of("he")));
    assert!(!starts_with(&text, &chars_of("el")));
    assert!(chars_eq(&text, &chars_of("hello")));
    assert!(!chars_eq(&text, &chars_of("hell")));
    assert_eq!(string_of(&text), "hello");
}

#[test]
fn trimming_removes_unicode_whitespace_at_both_ends() {
    let cs = chars_of("\u{3000} \tdata: x \r\u{a0}");
    assert_eq!(trimmed_range(&cs, 0, cs.len()), "data: x");
    let inner = chars_of("  a b  ");
    assert_eq!(trimmed_range(&inner, 1, 5), "a b");
    let blank = chars_of(" \n ");
    assert_eq!(trimmed_range(&blank, 0, 3), "");
}

#[test]
fn system_message_comes_first_and_user_last() {
    let r = build_chat_request("m".to_string(), "p".to_string(), Some("s".to_string()), 7, false);
    assert_eq!(r.messages.len(), 2);
    assert_eq!(r.messages[0].role, "system");
    assert_eq!(r.messages[1].role, "user");
    assert_eq!(r.messages[1].content.as_deref(), Some("p"));
    assert_eq!(r.max_tokens, 7);
    assert!(!r.stream);
}

#[test]
fn reply_of_a_complete_response() {
    let resp = ChatResponse {
        choices: vec![
            Choice { message: Message { role: "assistant".to_string(), content: Some("first".to_string()) } },
            Choice { message: Message { role: "assistant".to_string(), content: Some("second".to_string()) } },
        ],
        usage: Some(Usage { prompt_tokens: 11, completion_tokens: 22 }),
    };
    assert_eq!(reply_text(&resp).as_deref(), Some("first"));
    assert_eq!(reply_token_counts(&resp), (11, 22));

    let empty = ChatResponse { choices: vec![], usage: None };
    assert_eq!(reply_text(&empty), None);
    assert_eq!(reply_token_counts(&empty), (0, 0));

    let no_text = ChatResponse {
        choices: vec![Choice { message: Message { role: "assistant".to_string(), content: None } }],
        usage: None,
    };
    assert_eq!(reply_text(&no_text), None);
}

#[test]
fn usage_summary_line() {
    assert_eq!(
        usage_line("openai/gpt-5.5", 12, 345),
        "model: openai/gpt-5.5 | in: 12 tok | out: 345 tok"
    );
}

#[test]
fn json_access_by_key_and_index() {
    let v = parse_json(r#"{"a":[10,{"b":"x"}],"n":1.5,"m":-2}"#).unwrap();
    let a = json_get(&v, "a").unwrap();
    assert!(matches!(json_at(a, 0), Some(Json::Number(Some(10)))));
    assert!(json_at(a, 2).is_none());
    assert!(json_get(a, "b").is_none());
    assert!(matches!(json_get(&v, "n"), Some(Json::Number(None))));
    assert!(matches!(json_get(&v, "m"), Some(Json::Number(None))));
    assert!(json_get(&v, "zzz").is_none());
}

#[test]
fn usage_fields_that_are_not_counts_keep_the_old_counts() {
    let mut stats = StreamStats { prompt_tokens: 1, completion_tokens: 2 };
    let v = parse_json(r#"{"usage":{"prompt_tokens":"7","completion_tokens":-3}}"#).unwrap();
    update_stream_stats(&v, &mut stats);
    assert_eq!(stats, StreamStats { prompt_tokens: 1, completion_tokens: 2 });

    let w = parse_json(r#"{"usage":{"completion_tokens":30}}"#).unwrap();
    update_stream_stats(&w, &mut stats);
    assert_eq!(stats, StreamStats { prompt_tokens: 1, completion_tokens: 30 });

    let none = parse_json(r#"{"choices":[]}"#).unwrap();
    update_stream_stats(&none, &mut stats);
    assert_eq!(stats, StreamStats { prompt_tokens: 1, completion_tokens: 30 });
}

#[test]
fn empty_or_missing_content_gives_nothing() {
    let empty = parse_json(r#"{"choices":[{"delta":{"content":""}}]}"#).unwrap();
    assert_eq!(stream_content(&empty), None);
    let not_text = parse_json(r#"{"choices":[{"delta":{"content":5}}]}"#).unwrap();
    assert_eq!(stream_content(&not_text), None);
    let no_choices = parse_json(r#"{"choices":[]}"#).unwrap();
    assert_eq!(stream_content(&no_choices), None);
    let text = parse_json(r#"{"choices":[{"delta":{"content":"ok"}},{"delta":{"content":"no"}}]}"#).unwrap();
    assert_eq!(stream_content(&text).as_deref(), Some("ok"));
}

#[test]
fn payload_that_does_not_parse_changes_nothing() {
    let mut stats = StreamStats { prompt_tokens: 3, completion_tokens: 4 };
    assert_eq!(parse_stream_line("data: {not json", &mut stats), None);
    assert_eq!(parse_stream_line("data:{\"usage\":{\"prompt_tokens\":1}}", &mut stats), None);
    assert_eq!(stats, StreamStats { prompt_tokens: 3, completion_tokens: 4 });
}

#[test]
fn draining_in_chunks_equals_draining_at_once() {
    let text = "data: {\"choices\":[{\"delta\":{\"content\":\"He\"}}]}\n\ndata: {\"choices\":[{\"delta\":{\"content\":\"llo\"}}],\"usage\":{\"prompt_tokens\":2,\"completion_tokens\":3}}\ndata: [DONE]\n";

    let mut whole_buf = text.to_string();
    let mut whole_stats = StreamStats::default();
    let whole = drain_stream_buffer(&mut whole_buf, &mut whole_stats);

    for cut in 0..text.len() {
        if !text.is_char_boundary(cut) {
            continue;
        }
        let mut buf = text[..cut].to_string();
        let mut stats = StreamStats::default();
        let mut pieces = drain_stream_buffer(&mut buf, &mut stats);
        buf.push_str(&text[cut..]);
        pieces.extend(drain_stream_buffer(&mut buf, &mut stats));
        assert_eq!(pieces, whole);
        assert_eq!(stats, whole_stats);
        assert_eq!(buf, whole_buf);
    }
    assert_eq!(whole.concat(), "Hello");
    assert_eq!(whole_stats, StreamStats { prompt_tokens: 2, completion_tokens: 3 });
    assert_eq!(whole_buf, "");
}

#[test]
fn draining_again_reads_nothing() {
    let mut buf = "data: {\"choices\":[{\"delta\":{\"content\":\"a\"}}]}\ndata: {\"cho".to_string();
    let mut stats = StreamStats::default();
    let first = drain_stream_buffer(&mut buf, &mut stats);
    assert_eq!(first, vec!["a".to_string()]);
    let kept = buf.clone();
    let second = drain_stream_buffer(&mut buf, &mut stats);
    assert!(second.is_empty());
    assert_eq!(buf, kept);
    assert_eq!(buf, "data: {\"cho");
}

#[test]
fn lines_are_trimmed_before_reading() {
    let mut buf = "  data: {\"choices\":[{\"delta\":{\"content\":\"x\"}}]}\r\n\u{3000}event: ping\u{3000}\n".to_string();
    let mut stats = StreamStats::default();
    let pieces = drain_stream_buffer(&mut buf, &mut stats);
    assert_eq!(pieces, vec!["x".to_string()]);
    assert_eq!(buf, "");
}

#[test]
fn default_stats_are_zero() {
    assert_eq!(
        StreamStats::default(),
        StreamStats { prompt_tokens: 0, completion_tokens: 0 }
    );
}

#[test]
fn json_parse_reads_values_and_refuses_other_text() {
    assert!(matches!(parse_json("null"), Some(Json::Null)));
    assert!(matches!(parse_json(" true "), Some(Json::Bool(true))));
    assert!(matches!(parse_json("18446744073709551615"), Some(Json::Number(Some(u64::MAX)))));
    assert!(matches!(parse_json("\"hi\""), Some(Json::Str(ref s)) if s == "hi"));
    assert!(parse_json("").is_none());
    assert!(parse_json("{\"a\":1} x").is_none());
    assert!(parse_json("[DONE]").is_none());
}

#[test]
fn crlf_lines_read_as_lf_lines() {
    let lf = "data: {\"choices\":[{\"delta\":{\"content\":\"a\"}}]}\n\ndata: {\"usage\":{\"prompt_tokens\":4}}\ndata: {\"x\"";
    let crlf = lf.replace('\n', "\r\n");
    let mut b1 = lf.to_string();
    let mut s1 = StreamStats::default();
    let p1 = drain_stream_buffer(&mut b1, &mut s1);
    let mut b2 = crlf.clone();
    let mut s2 = StreamStats::default();
    let p2 = drain_stream_buffer(&mut b2, &mut s2);
    assert_eq!(p1, p2);
    assert_eq!(s1, s2);
    assert_eq!(b1, b2);
    assert_eq!(p1, vec!["a".to_string()]);
    assert_eq!(s1, StreamStats { prompt_tokens: 4, completion_tokens: 0 });
}

#[test]
fn narrower_search_keeps_a_subsequence() {
    let make = || vec![
        Model { id: "deepseek/v4-flash".to_string(), name: "DeepSeek Flash".to_string(), context_length: None, pricing: None },
        Model { id: "google/flash-lite".to_string(), name: "Flash Lite".to_string(), context_length: None, pricing: None },
        Model { id: "openai/gpt".to_string(), name: "GPT".to_string(), context_length: None, pricing: None },
    ];
    let wide: Vec<String> = filter_models(make(), Some("flash")).iter().map(|m| m.id.clone()).collect();
    let narrow: Vec<String> = filter_models(make(), Some("Flash-Lite")).iter().map(|m| m.id.clone()).collect();
    assert_eq!(wide, vec!["deepseek/v4-flash".to_string(), "google/flash-lite".to_string()]);
    assert_eq!(narrow, vec!["google/flash-lite".to_string()]);
    let again: Vec<String> = filter_models(filter_models(make(), Some("flash")), Some("flash-lite")).iter().map(|m| m.id.clone()).collect();
    assert_eq!(again, narrow);
}
