use auth2api::config::Config;
use auth2api::json::Json;
use auth2api::translate::{
    chat_to_responses, AssembledMessage, ChatFunctionCall, ChatMessage, ChatRequest, ChatToolCall,
};

fn from_value(v: serde_json::Value) -> Json {
    match v {
        serde_json::Value::Null => Json::Null,
        serde_json::Value::Bool(b) => Json::Bool(b),
        serde_json::Value::Number(n) => match (n.as_u64(), n.as_i64()) {
            (Some(u), _) => Json::PosInt(u),
            (None, Some(i)) => Json::NegInt(i),
            (None, None) => Json::Float(n.to_string()),
        },
        serde_json::Value::String(s) => Json::Str(s),
        serde_json::Value::Array(a) => Json::Array(a.into_iter().map(from_value).collect()),
        serde_json::Value::Object(m) => Json::Object(m.into_iter().map(|(k, v)| (k, from_value(v))).collect()),
    }
}

fn to_value(j: &Json) -> serde_json::Value {
    match j {
        Json::Null => serde_json::Value::Null,
        Json::Bool(b) => serde_json::Value::Bool(*b),
        Json::PosInt(n) => serde_json::Value::from(*n),
        Json::NegInt(n) => serde_json::Value::from(*n),
        Json::Float(s) => serde_json::Value::Number(s.parse().unwrap()),
        Json::Str(s) => serde_json::Value::String(s.clone()),
        Json::Array(a) => serde_json::Value::Array(a.iter().map(to_value).collect()),
        Json::Object(m) => serde_json::Value::Object(m.iter().map(|(k, v)| (k.clone(), to_value(v))).collect()),
    }
}

fn json(text: &str) -> Json {
    from_value(serde_json::from_str(text).unwrap())
}

fn same(a: &Json, expected: &str) -> bool {
    let want: serde_json::Value = serde_json::from_str(expected).unwrap();
    to_value(a) == want
}

fn msg(role: &str, content: Option<Json>) -> ChatMessage {
    ChatMessage {
        role: role.into(),
        content,
        tool_calls: None,
        tool_call_id: None,
    }
}

fn text(s: &str) -> Option<Json> {
    Some(Json::Str(s.into()))
}

fn request(messages: Vec<ChatMessage>) -> ChatRequest {
    ChatRequest {
        model: None,
        messages,
        stream: None,
        stream_options: None,
        tools: None,
        tool_choice: None,
        parallel_tool_calls: None,
        reasoning_effort: None,
        max_completion_tokens: None,
        max_tokens: None,
    }
}

fn at<'a>(j: &'a Json, key: &str) -> &'a Json {
    j.get(key).unwrap()
}

fn nth(j: &Json, i: usize) -> &Json {
    &j.as_array().unwrap()[i]
}

#[test]
fn system_messages_become_instructions_and_the_rest_become_input() {
    let req = request(vec![
        msg("system", text("be terse")),
        msg("user", text("hi")),
        msg("assistant", text("hello")),
        msg("user", text("bye")),
    ]);
    let out = chat_to_responses(&req, &Config::default());
    assert_eq!(at(&out.body, "instructions").as_str(), Some("be terse"));
    assert_eq!(at(&out.body, "input").as_array().unwrap().len(), 3);
    assert_eq!(at(nth(at(&out.body, "input"), 0), "role").as_str(), Some("user"));
    assert_eq!(at(nth(at(nth(at(&out.body, "input"), 1), "content"), 0), "type").as_str(), Some("output_text"));
    assert_eq!(at(&out.body, "stream").as_bool(), Some(true));
    assert!(!out.stream);
}

#[test]
fn a_tool_round_trip_maps_to_function_call_and_function_call_output() {
    let mut assistant = msg("assistant", None);
    assistant.tool_calls = Some(vec![ChatToolCall {
        id: "call_1".into(),
        kind: "function".into(),
        function: ChatFunctionCall {
            name: "get_weather".into(),
            arguments: "{\"city\":\"SF\"}".into(),
        },
    }]);
    let mut tool = msg("tool", text("18C"));
    tool.tool_call_id = Some("call_1".into());
    let mut req = request(vec![msg("user", text("weather?")), assistant, tool]);
    req.tools = Some(vec![json(
        r#"{"type":"function","function":{"name":"get_weather","description":"w","parameters":{"type":"object"}}}"#,
    )]);
    let out = chat_to_responses(&req, &Config::default());
    let input = at(&out.body, "input").as_array().unwrap();

    assert_eq!(input.len(), 3);
    assert_eq!(at(&input[1], "type").as_str(), Some("function_call"));
    assert_eq!(at(&input[1], "call_id").as_str(), Some("call_1"));
    assert_eq!(at(&input[1], "arguments").as_str(), Some("{\"city\":\"SF\"}"));
    assert_eq!(at(&input[2], "type").as_str(), Some("function_call_output"));
    assert_eq!(at(&input[2], "call_id").as_str(), Some("call_1"));
    assert_eq!(at(&input[2], "output").as_str(), Some("18C"));

    let tool0 = nth(at(&out.body, "tools"), 0);
    assert_eq!(at(tool0, "name").as_str(), Some("get_weather"));
    assert!(tool0.get("function").is_none());
    assert_eq!(at(&out.body, "tool_choice").as_str(), Some("auto"));
}

#[test]
fn a_flat_tool_declaration_is_accepted_too() {
    let mut req = request(vec![]);
    req.tools = Some(vec![json(r#"{"type":"function","name":"ping","parameters":{}}"#)]);
    let out = chat_to_responses(&req, &Config::default());
    assert_eq!(at(nth(at(&out.body, "tools"), 0), "name").as_str(), Some("ping"));
}

#[test]
fn a_named_tool_choice_flattens() {
    let mut req = request(vec![]);
    req.tools = Some(vec![json(r#"{"type":"function","name":"ping"}"#)]);
    req.tool_choice = Some(json(r#"{"type":"function","function":{"name":"ping"}}"#));
    let out = chat_to_responses(&req, &Config::default());
    assert!(same(at(&out.body, "tool_choice"), r#"{"type":"function","name":"ping"}"#));
}

#[test]
fn multimodal_user_content_keeps_images() {
    let req = request(vec![msg(
        "user",
        Some(json(
            r#"[{"type":"text","text":"what is this?"},
                {"type":"image_url","image_url":{"url":"data:image/png;base64,AAAA"}}]"#,
        )),
    )]);
    let out = chat_to_responses(&req, &Config::default());
    let content = at(nth(at(&out.body, "input"), 0), "content");
    assert_eq!(at(nth(content, 0), "type").as_str(), Some("input_text"));
    assert_eq!(at(nth(content, 1), "type").as_str(), Some("input_image"));
    assert_eq!(at(nth(content, 1), "image_url").as_str(), Some("data:image/png;base64,AAAA"));
}

#[test]
fn sampling_parameters_are_dropped_rather_than_forwarded() {
    // `temperature` and `top_p` have no field in a chat request at all, so
    // nothing can carry them upstream.
    let req = request(vec![]);
    let out = chat_to_responses(&req, &Config::default());
    assert!(out.body.get("temperature").is_none());
    assert!(out.body.get("top_p").is_none());
}

#[test]
fn no_system_message_falls_back_to_the_configured_instructions() {
    let req = request(vec![msg("user", text("hi"))]);
    let config = Config::default();
    let out = chat_to_responses(&req, &config);
    assert_eq!(at(&out.body, "instructions").as_str(), Some(config.default_instructions.as_str()));
}

#[test]
fn assembling_prefers_tool_calls_and_nulls_empty_content() {
    let items = vec![json(r#"{"type": "function_call", "call_id": "c1", "name": "f", "arguments": "{\"a\":1}"}"#)];
    let assembled = AssembledMessage::from_output_items(&items);
    assert_eq!(assembled.finish_reason(), "tool_calls");
    let message = assembled.to_message_json();
    assert!(at(&message, "content").is_null());
    assert_eq!(at(nth(at(&message, "tool_calls"), 0), "id").as_str(), Some("c1"));
    assert_eq!(at(at(nth(at(&message, "tool_calls"), 0), "function"), "name").as_str(), Some("f"));
}

#[test]
fn a_tool_call_with_no_arguments_still_yields_parseable_json() {
    let items = vec![json(r#"{"type": "function_call", "call_id": "c1", "name": "f"}"#)];
    let assembled = AssembledMessage::from_output_items(&items);
    assert_eq!(assembled.tool_calls[0].function.arguments, "{}");
}

#[test]
fn assembling_concatenates_message_text() {
    let items = vec![json(
        r#"{"type": "message", "content": [
        {"type": "output_text", "text": "part one "},
        {"type": "output_text", "text": "part two"}]}"#,
    )];
    let assembled = AssembledMessage::from_output_items(&items);
    assert_eq!(assembled.content, "part one part two");
    assert_eq!(assembled.finish_reason(), "stop");
}

#[test]
fn the_client_model_is_clamped_and_streaming_options_read() {
    let mut req = request(vec![msg("user", text("hi"))]);
    req.model = Some("gpt-4o".into());
    req.stream = Some(true);
    req.stream_options = Some(auth2api::translate::StreamOptions { include_usage: true });
    req.max_tokens = Some(64);
    let out = chat_to_responses(&req, &Config::default());
    assert_eq!(out.model, "gpt-5.6-luna");
    assert!(out.stream);
    assert!(out.include_usage);
    assert_eq!(at(&out.body, "model").as_str(), Some("gpt-5.6-luna"));
    assert_eq!(at(&out.body, "store").as_bool(), Some(false));
}

#[test]
fn the_upstream_body_carries_only_what_applies() {
    let mut req = request(vec![msg("user", text("hi"))]);
    let out = chat_to_responses(&req, &Config::default());
    let v = to_value(&out.body);
    for key in ["model", "store", "stream", "instructions", "input"] {
        assert!(v.get(key).is_some(), "{key}");
    }
    for key in ["tools", "tool_choice", "parallel_tool_calls", "reasoning", "max_output_tokens"] {
        assert!(v.get(key).is_none(), "{key}");
    }
    req.reasoning_effort = Some("high".into());
    req.max_tokens = Some(10);
    req.max_completion_tokens = Some(20);
    req.tools = Some(vec![json(r#"{"type":"function","name":"ping"}"#)]);
    req.parallel_tool_calls = Some(false);
    let v = to_value(&chat_to_responses(&req, &Config::default()).body);
    assert_eq!(v["reasoning"]["effort"], "high");
    assert_eq!(v["reasoning"].as_object().unwrap().len(), 1);
    assert_eq!(v["max_output_tokens"], 20);
    assert_eq!(v["parallel_tool_calls"], false);
    assert_eq!(v["tool_choice"], "auto");
}
