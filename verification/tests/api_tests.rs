use auth2api::api::{
    check_chat, check_key, completion_body, completion_id, event_name, health_json, model_list, prepare_responses,
    presented_secret, response_body, response_id_or_new, retrieve_model, usage_json, ApiError, ChatStream, Collected,
    Recorder, Watch,
};
use auth2api::auth::Credential;
use auth2api::config::Config;
use auth2api::json::Json;
use auth2api::keys::{ApiKey, Caller, KeyStore};
use auth2api::stream::{EventKind, Usage};
use auth2api::translate::ChatRequest;

fn from_value(v: serde_json::Value) -> Json {
    match v {
        serde_json::Value::Null => Json::Null,
        serde_json::Value::Bool(b) => Json::Bool(b),
        serde_json::Value::Number(n) => match (n.as_u64(), n.as_i64()) {
            (Some(u), _) => Json::PosInt(u),
            (None, Some(i)) => Json::NegInt(i),
            (None, None) => Json::Float(n.to_string()),
        },
        serde_json::Value::String(s) => Json::Str(s),
        serde_json::Value::Array(a) => Json::Array(a.into_iter().map(from_value).collect()),
        serde_json::Value::Object(m) => Json::Object(m.into_iter().map(|(k, v)| (k, from_value(v))).collect()),
    }
}

fn to_value(j: &Json) -> serde_json::Value {
    match j {
        Json::Null => serde_json::Value::Null,
        Json::Bool(b) => serde_json::Value::Bool(*b),
        Json::PosInt(n) => serde_json::Value::from(*n),
        Json::NegInt(n) => serde_json::Value::from(*n),
        Json::Float(s) => serde_json::Value::Number(s.parse().unwrap()),
        Json::Str(s) => serde_json::Value::String(s.clone()),
        Json::Array(a) => serde_json::Value::Array(a.iter().map(to_value).collect()),
        Json::Object(m) => serde_json::Value::Object(m.iter().map(|(k, v)| (k.clone(), to_value(v))).collect()),
    }
}

fn json(text: &str) -> Json {
    from_value(serde_json::from_str(text).unwrap())
}

fn same(a: &Json, expected: &str) -> bool {
    let want: serde_json::Value = serde_json::from_str(expected).unwrap();
    to_value(a) == want
}

#[test]
fn the_secret_is_read_from_either_header() {
    assert_eq!(presented_secret(Some("Bearer sk-a2a-abc"), None), "sk-a2a-abc");
    assert_eq!(presented_secret(Some("bearer sk-a2a-abc"), None), "sk-a2a-abc");
    assert_eq!(presented_secret(None, Some("sk-a2a-abc")), "sk-a2a-abc");
    assert_eq!(presented_secret(None, None), "");
}

#[test]
fn an_authorization_header_without_the_bearer_scheme_yields_nothing() {
    assert_eq!(presented_secret(Some("sk-a2a-abc"), None), "");
}

#[test]
fn a_schemeless_authorization_falls_back_to_x_api_key_and_is_trimmed() {
    assert_eq!(presented_secret(Some("sk-a2a-abc"), Some("  sk-a2a-def ")), "sk-a2a-def");
    assert_eq!(presented_secret(Some("Bearer  sk-a2a-abc\t"), Some("other")), "sk-a2a-abc");
}

#[test]
fn errors_use_the_openai_envelope() {
    let e = ApiError::bad_request("nope".into());
    assert_eq!(e.status, 400);
    assert!(same(
        &e.to_json(),
        r#"{"error":{"message":"nope","type":"invalid_request_error","param":null,"code":null}}"#
    ));
    assert_eq!(ApiError::unauthorized("x".into()).status, 401);
    let up = ApiError::upstream("down".into());
    assert_eq!((up.status, up.kind), (502, "upstream_error"));
    assert_eq!(ApiError::unparsable("eof").message, "could not parse the request body: eof");
}

#[test]
fn a_wrong_key_is_a_401() {
    let store = KeyStore {
        keys: vec![ApiKey {
            id: "k_1".into(),
            name: "one".into(),
            secret: "sk-a2a-one".into(),
            created_at: 0,
            revoked: false,
        }],
    };
    let config = Config::default();
    let e = check_key(&config, &store, Some("Bearer sk-a2a-wrong"), None).unwrap_err();
    assert_eq!(e.status, 401);
    assert_eq!(e.message, "Incorrect API key provided.");
    let c = check_key(&config, &store, None, Some("sk-a2a-one")).unwrap();
    assert_eq!(c.key_id.as_deref(), Some("k_1"));
}

#[test]
fn the_model_list_and_lookup() {
    let config = Config::default();
    assert!(same(
        &model_list(&config),
        r#"{"object":"list","data":[
            {"id":"gpt-5.6-sol","object":"model","created":0,"owned_by":"openai"},
            {"id":"gpt-5.6-terra","object":"model","created":0,"owned_by":"openai"},
            {"id":"gpt-5.6-luna","object":"model","created":0,"owned_by":"openai"}]}"#
    ));
    assert!(same(
        &retrieve_model(&config, "gpt-5.6-sol").unwrap(),
        r#"{"id":"gpt-5.6-sol","object":"model","created":0,"owned_by":"openai"}"#
    ));
    let missing = retrieve_model(&config, "gpt-4o").unwrap_err();
    assert_eq!(missing.status, 404);
    assert_eq!(missing.message, "The model 'gpt-4o' does not exist or is not available to this login.");
}

#[test]
fn an_empty_conversation_is_refused() {
    let req = ChatRequest {
        model: None,
        messages: Vec::new(),
        stream: None,
        stream_options: None,
        tools: None,
        tool_choice: None,
        parallel_tool_calls: None,
        reasoning_effort: None,
        max_completion_tokens: None,
        max_tokens: None,
    };
    let e = check_chat(&req).unwrap_err();
    assert_eq!((e.status, e.message.as_str()), (400, "'messages' must not be empty"));
}

fn usage() -> Usage {
    Usage {
        prompt_tokens: 3,
        completion_tokens: 4,
        total_tokens: 7,
        cached_tokens: 1,
        reasoning_tokens: 2,
    }
}

#[test]
fn usage_is_reported_in_chat_completions_shape() {
    assert!(same(
        &usage_json(&usage()),
        r#"{"prompt_tokens":3,"completion_tokens":4,"total_tokens":7,
            "prompt_tokens_details":{"cached_tokens":1},
            "completion_tokens_details":{"reasoning_tokens":2}}"#
    ));
}

#[test]
fn a_stream_sends_the_role_once_then_deltas_then_the_finish() {
    let mut s = ChatStream::new("chatcmpl-1".into(), 5, "m".into(), true);
    assert!(same(
        &s.opening(),
        r#"{"id":"chatcmpl-1","object":"chat.completion.chunk","created":5,"model":"m",
            "choices":[{"index":0,"delta":{"role":"assistant","content":""},"finish_reason":null}]}"#
    ));
    let text = s.on_event(EventKind::TextDelta("hi".into())).unwrap();
    assert!(same(
        &text,
        r#"{"id":"chatcmpl-1","object":"chat.completion.chunk","created":5,"model":"m",
            "choices":[{"index":0,"delta":{"content":"hi"},"finish_reason":null}]}"#
    ));
    let call = s
        .on_event(EventKind::ToolCallStart { index: 0, call_id: "c".into(), name: "f".into() })
        .unwrap();
    assert!(same(
        &call,
        r#"{"id":"chatcmpl-1","object":"chat.completion.chunk","created":5,"model":"m",
            "choices":[{"index":0,"delta":{"tool_calls":[{"index":0,"id":"c","type":"function",
            "function":{"name":"f","arguments":""}}]},"finish_reason":null}]}"#
    ));
    let args = s.on_event(EventKind::ToolCallArgsDelta { index: 0, delta: "{}".into() }).unwrap();
    assert!(same(
        &args,
        r#"{"id":"chatcmpl-1","object":"chat.completion.chunk","created":5,"model":"m",
            "choices":[{"index":0,"delta":{"tool_calls":[{"index":0,"function":{"arguments":"{}"}}]},
            "finish_reason":null}]}"#
    ));
    assert!(s.on_event(EventKind::Completed { usage: usage() }).is_none());
    assert!(s.on_event(EventKind::Other).is_none());
    let closing = s.closing();
    assert_eq!(closing.len(), 2);
    assert!(same(
        &closing[0],
        r#"{"id":"chatcmpl-1","object":"chat.completion.chunk","created":5,"model":"m",
            "choices":[{"index":0,"delta":{},"finish_reason":"tool_calls"}]}"#
    ));
    assert!(same(
        &closing[1],
        r#"{"id":"chatcmpl-1","object":"chat.completion.chunk","created":5,"model":"m","choices":[],
            "usage":{"prompt_tokens":3,"completion_tokens":4,"total_tokens":7,
            "prompt_tokens_details":{"cached_tokens":1},"completion_tokens_details":{"reasoning_tokens":2}}}"#
    ));
}

#[test]
fn a_failed_stream_ends_with_the_error_in_band() {
    let mut s = ChatStream::new("chatcmpl-1".into(), -1, "m".into(), true);
    assert!(s.on_event(EventKind::Failed("overloaded".into())).is_none());
    assert_eq!(s.failure.as_deref(), Some("overloaded"));
    let closing = s.closing();
    assert_eq!(closing.len(), 1);
    assert!(same(&closing[0], r#"{"error":{"message":"overloaded","type":"upstream_error"}}"#));
    let mut broken = ChatStream::new("x".into(), 0, "m".into(), false);
    broken.on_error("upstream stream failed: reset".into());
    assert!(same(
        &broken.closing()[0],
        r#"{"error":{"message":"upstream stream failed: reset","type":"upstream_error"}}"#
    ));
}

#[test]
fn a_plain_stream_stops() {
    let s = ChatStream::new("x".into(), 0, "m".into(), false);
    let closing = s.closing();
    assert_eq!(closing.len(), 1);
    assert_eq!(
        closing[0].get("choices").unwrap().as_array().unwrap()[0].get("finish_reason").unwrap().as_str(),
        Some("stop")
    );
}

#[test]
fn a_whole_completion_is_assembled_from_the_items() {
    let mut c = Collected::new();
    assert!(c.take(EventKind::Created { response_id: "resp_9".into() }).is_none());
    assert!(c
        .take(EventKind::ItemDone(json(r#"{"type":"message","content":[{"type":"output_text","text":"hey"}]}"#)))
        .is_none());
    assert!(c.take(EventKind::Completed { usage: usage() }).is_none());
    assert_eq!(c.response_id, "resp_9");
    assert_eq!(c.take(EventKind::Failed("boom".into())).as_deref(), Some("boom"));
    let body = completion_body("chatcmpl-1", 10, "m", &c.items, &c.usage);
    assert!(same(
        &body,
        r#"{"id":"chatcmpl-1","object":"chat.completion","created":10,"model":"m",
            "choices":[{"index":0,"message":{"role":"assistant","content":"hey"},"finish_reason":"stop"}],
            "usage":{"prompt_tokens":3,"completion_tokens":4,"total_tokens":7,
            "prompt_tokens_details":{"cached_tokens":1},"completion_tokens_details":{"reasoning_tokens":2}}}"#
    ));
    let whole = response_body(&c.response_id, 10, "m", c.items, &c.usage);
    assert!(same(
        &whole,
        r#"{"id":"resp_9","object":"response","created_at":10,"model":"m","status":"completed",
            "output":[{"type":"message","content":[{"type":"output_text","text":"hey"}]}],
            "usage":{"input_tokens":3,"input_tokens_details":{"cached_tokens":1},"output_tokens":4,
            "output_tokens_details":{"reasoning_tokens":2},"total_tokens":7}}"#
    ));
}

#[test]
fn ids_are_fresh_where_none_came() {
    let id = completion_id();
    assert!(id.starts_with("chatcmpl-") && id.len() == 41);
    assert_ne!(completion_id(), id);
    let made = response_id_or_new(String::new());
    assert!(made.starts_with("resp_") && made.len() == 37);
    assert_eq!(response_id_or_new("resp_1".into()), "resp_1");
    let lower_hex = |s: &str| s.chars().all(|c| c.is_ascii_digit() || ('a'..='f').contains(&c));
    assert!(lower_hex(&id["chatcmpl-".len()..]));
    assert!(lower_hex(&made["resp_".len()..]));
}

#[test]
fn the_passthrough_watches_usage_and_failure() {
    let mut w = Watch::new();
    w.observe(&EventKind::Completed { usage: usage() });
    w.observe(&EventKind::Failed("bad".into()));
    w.observe(&EventKind::TextDelta("x".into()));
    assert_eq!(w.usage, usage());
    assert_eq!(w.failure.as_deref(), Some("bad"));
    assert_eq!(event_name(&json(r#"{"type":"response.created"}"#)), Some("response.created"));
    assert_eq!(event_name(&json(r#"{"kind":1}"#)), None);
}

#[test]
fn a_responses_body_is_clamped_and_kept() {
    let config = Config::default();
    let call = prepare_responses(br#"{"model":"gpt-4o","input":"hi","stream":true}"#, &config).unwrap();
    assert_eq!(call.model, "gpt-5.6-luna");
    assert!(call.stream);
    assert!(same(&call.body, r#"{"model":"gpt-5.6-luna","input":"hi","stream":true}"#));
    let plain = prepare_responses(br#"{"input":"hi"}"#, &config).unwrap();
    assert!(!plain.stream);
    assert!(same(&plain.body, r#"{"input":"hi","model":"gpt-5.6-luna"}"#));
    let not_object = prepare_responses(b"[1]", &config).unwrap_err();
    assert_eq!(not_object.message, "the request body must be a JSON object");
    let broken = prepare_responses(b"{", &config).unwrap_err();
    assert_eq!(broken.status, 400);
    assert!(broken.message.starts_with("could not parse the request body: "));
    assert!(broken.message.len() > "could not parse the request body: ".len());
}

#[test]
fn health_reports_the_login() {
    let config = Config::default();
    assert!(same(
        &health_json(&config, None),
        r#"{"status":"ok","signed_in":false,"account_id":null,"plan":null,
            "models":["gpt-5.6-sol","gpt-5.6-terra","gpt-5.6-luna"],"default_model":"gpt-5.6-luna"}"#
    ));
    let cred = Credential {
        access: "a".into(),
        refresh: "r".into(),
        expires: 0,
        account_id: "acct".into(),
        email: None,
        plan: Some("plus".into()),
    };
    let h = health_json(&config, Some(&cred));
    assert_eq!(h.get("account_id").unwrap().as_str(), Some("acct"));
    assert_eq!(h.get("plan").unwrap().as_str(), Some("plus"));
    assert_eq!(h.get("signed_in").unwrap().as_bool(), Some(true));
}

#[test]
fn a_finished_request_is_one_usage_row() {
    let caller = Caller {
        key_id: Some("k_1".into()),
        key_name: Some("zed".into()),
    };
    let rec = Recorder::new("/v1/chat/completions", "m".into(), true, caller);
    let row = rec.finish(usage(), Some("boom".into()));
    assert_eq!(row.endpoint, "/v1/chat/completions");
    assert_eq!((row.prompt_tokens, row.total_tokens), (3, 7));
    assert!(!row.ok && row.stream);
    assert_eq!(row.error.as_deref(), Some("boom"));
    assert_eq!(row.key_name.as_deref(), Some("zed"));
    assert!(row.ts > 0);
    assert!(rec.finish(Usage::default(), None).ok);
}
