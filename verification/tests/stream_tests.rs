use auth2api::json::Json;
use auth2api::stream::{classify, CallIndex, EventDecoder, EventKind, Usage};

fn from_value(v: serde_json::Value) -> Json {
    match v {
        serde_json::Value::Null => Json::Null,
        serde_json::Value::Bool(b) => Json::Bool(b),
        serde_json::Value::Number(n) => match (n.as_u64(), n.as_i64()) {
            (Some(u), _) => Json::PosInt(u),
            (None, Some(i)) => Json::NegInt(i),
            (None, None) => Json::Float(n.to_string()),
        },
        serde_json::Value::String(s) => Json::Str(s),
        serde_json::Value::Array(a) => Json::Array(a.into_iter().map(from_value).collect()),
        serde_json::Value::Object(m) => Json::Object(m.into_iter().map(|(k, v)| (k, from_value(v))).collect()),
    }
}

#[allow(dead_code)]
fn to_value(j: &Json) -> serde_json::Value {
    match j {
        Json::Null => serde_json::Value::Null,
        Json::Bool(b) => serde_json::Value::Bool(*b),
        Json::PosInt(n) => serde_json::Value::from(*n),
        Json::NegInt(n) => serde_json::Value::from(*n),
        Json::Float(s) => serde_json::Value::Number(s.parse().unwrap()),
        Json::Str(s) => serde_json::Value::String(s.clone()),
        Json::Array(a) => serde_json::Value::Array(a.iter().map(to_value).collect()),
        Json::Object(m) => serde_json::Value::Object(m.iter().map(|(k, v)| (k.clone(), to_value(v))).collect()),
    }
}

fn json(text: &str) -> Json {
    from_value(serde_json::from_str(text).unwrap())
}

fn classify_all(events: &[&str]) -> Vec<EventKind> {
    let mut ids = CallIndex::new();
    events.iter().map(|e| classify(&json(e), &mut ids)).collect()
}

#[test]
fn argument_deltas_resolve_to_the_index_from_the_added_event() {
    let kinds = classify_all(&[
        r#"{"type": "response.output_item.added", "item": {
            "type": "function_call", "id": "item_1", "call_id": "call_abc", "name": "get_weather"}}"#,
        r#"{"type": "response.output_item.added", "item": {
            "type": "function_call", "id": "item_2", "call_id": "call_def", "name": "get_time"}}"#,
        r#"{"type": "response.function_call_arguments.delta",
               "item_id": "item_2", "delta": "{\"tz\""}"#,
    ]);
    assert!(matches!(&kinds[0], EventKind::ToolCallStart { index: 0, call_id, name }
        if call_id == "call_abc" && name == "get_weather"));
    assert!(matches!(&kinds[1], EventKind::ToolCallStart { index: 1, .. }));
    assert!(matches!(&kinds[2], EventKind::ToolCallArgsDelta { index: 1, delta }
        if delta == "{\"tz\""));
}

#[test]
fn an_orphan_argument_delta_is_ignored() {
    let kinds = classify_all(&[r#"{
        "type": "response.function_call_arguments.delta",
        "item_id": "never_announced", "delta": "{}"
    }"#]);
    assert!(matches!(kinds[0], EventKind::Other));
}

#[test]
fn usage_is_read_including_its_nested_details() {
    let kinds = classify_all(&[r#"{"type": "response.completed", "response": {"usage": {
        "input_tokens": 100, "output_tokens": 20, "total_tokens": 120,
        "input_tokens_details": {"cached_tokens": 64},
        "output_tokens_details": {"reasoning_tokens": 12}
    }}}"#]);
    let EventKind::Completed { usage } = &kinds[0] else {
        panic!("expected Completed");
    };
    assert_eq!(
        *usage,
        Usage {
            prompt_tokens: 100,
            completion_tokens: 20,
            total_tokens: 120,
            cached_tokens: 64,
            reasoning_tokens: 12,
        }
    );
}

#[test]
fn a_missing_total_is_derived_rather_than_logged_as_zero() {
    let kinds = classify_all(&[r#"{"type": "response.completed", "response": {"usage": {
        "input_tokens": 7, "output_tokens": 3
    }}}"#]);
    let EventKind::Completed { usage } = &kinds[0] else {
        panic!("expected Completed");
    };
    assert_eq!(usage.total_tokens, 10);
}

#[test]
fn a_failure_event_carries_the_message_not_the_whole_envelope() {
    let kinds = classify_all(&[r#"{"type": "response.failed", "response": {
        "error": {"message": "model overloaded", "code": "server_error"}}}"#]);
    assert!(matches!(&kinds[0], EventKind::Failed(m) if m == "model overloaded"));
}

#[test]
fn text_reasoning_and_creation_are_told_apart() {
    let kinds = classify_all(&[
        r#"{"type": "response.created", "response": {"id": "resp_1"}}"#,
        r#"{"type": "response.output_text.delta", "delta": "hel"}"#,
        r#"{"type": "response.reasoning_summary_text.delta", "delta": "thinking"}"#,
        r#"{"type": "response.output_item.done", "item": {"type": "message"}}"#,
        r#"{"type": "response.in_progress"}"#,
    ]);
    assert!(matches!(&kinds[0], EventKind::Created { response_id } if response_id == "resp_1"));
    assert!(matches!(&kinds[1], EventKind::TextDelta(t) if t == "hel"));
    assert!(matches!(&kinds[2], EventKind::ReasoningDelta(t) if t == "thinking"));
    assert!(matches!(&kinds[3], EventKind::ItemDone(_)));
    assert!(matches!(&kinds[4], EventKind::Other));
}

#[test]
fn the_decoder_turns_body_chunks_into_events() {
    let mut decoder = EventDecoder::new();
    let first = decoder.feed(b"data: {\"type\":\"response.output_text.delta\",\"delta\":\"a\"}\n\ndata: {\"ty");
    assert_eq!(first.len(), 1);
    assert!(matches!(&first[0].kind, EventKind::TextDelta(t) if t == "a"));
    let rest = decoder.feed(b"pe\":\"response.output_text.delta\",\"delta\":\"b\"}\ndata: not json\ndata: [DONE]\n");
    assert_eq!(rest.len(), 1);
    assert!(matches!(&rest[0].kind, EventKind::TextDelta(t) if t == "b"));
    assert_eq!(rest[0].raw.get("delta").and_then(|d| d.as_str()), Some("b"));
}

#[test]
fn a_failure_without_a_message_carries_its_error_object() {
    let kinds = classify_all(&[r#"{"type": "error", "error": {"code": "rate_limited"}}"#]);
    assert!(matches!(&kinds[0], EventKind::Failed(m) if m == r#"{"code":"rate_limited"}"#));
}

#[test]
fn any_split_of_a_body_decodes_to_the_same_events() {
    let text = [
        "data: {\"type\":\"response.output_item.added\",\"item\":{\"type\":\"function_call\",\"id\":\"i1\",\"call_id\":\"c1\",\"name\":\"f\"}}\n",
        "data: {\"type\":\"response.function_call_arguments.delta\",\"item_id\":\"i1\",\"delta\":\"{}\"}\n",
        "data: {\"type\":\"response.output_text.delta\",\"delta\":\"é\"}\n",
        "data: [DONE]\n",
    ]
    .join("");
    let body = text.as_bytes();
    let describe = |events: &[auth2api::stream::ParsedEvent]| {
        events
            .iter()
            .map(|e| match &e.kind {
                EventKind::ToolCallStart { index, call_id, name } => format!("start {index} {call_id} {name}"),
                EventKind::ToolCallArgsDelta { index, delta } => format!("args {index} {delta}"),
                EventKind::TextDelta(t) => format!("text {t}"),
                _ => "other".to_string(),
            })
            .collect::<Vec<_>>()
    };
    let mut whole = EventDecoder::new();
    let expected = describe(&whole.feed(body));
    assert_eq!(expected, vec!["start 0 c1 f", "args 0 {}", "text é"]);
    for split in 0..=body.len() {
        let mut parts = EventDecoder::new();
        let mut got = describe(&parts.feed(&body[..split]));
        got.extend(describe(&parts.feed(&body[split..])));
        assert_eq!(got, expected, "split at {split}");
    }
}
