//! What the local OpenAI-shaped API answers: who is calling, the error
//! envelope clients parse, the model list, and the bodies and chunks the
//! two generating endpoints send back.

use vstd::prelude::*;
use crate::config::Config;
use crate::json::{
    array1, empty_object, integer, jint, jopt, json_parse_bytes, opt_string, jstrings, jv_seq, obj1, obj2, obj3, obj4, obj5, obj6, obj7,
    parse_json_bytes, str_eq, strings, with_field, with_field_v, Json, JsonV, array_of,
};
use crate::keys::{authenticate, spec_authenticate, Caller, KeyStore};
use crate::keys::ostr;
use crate::platform::{lower_hex, now_unix, uuid_simple};
use crate::stats::Record;
use crate::stream::{zero_usage, EventKind, EventV, Usage};
use crate::translate::{
    assembled_calls, assembled_reasoning, assembled_text, calls_v, call_json_v, message_json_v, ojv, AssembledMessage,
    ChatRequest, ChatToolCall,
};
use crate::json::{jbool, jget, jstr};
use crate::config::opt_str;
use crate::text::{concat, spec_trim, strip_prefix, trim};

verus! {

broadcast use vstd::string::group_string_axioms;

/// An error in OpenAI's envelope, with the HTTP status it is sent with.
/// Clients show `error.message` to their users, and nothing at all for a
/// bare string body.
#[derive(Debug)]
pub struct ApiError {
    pub status: u16,
    pub message: String,
    pub kind: &'static str,
}

/// `{"error": {"message", "type", "param": null, "code": null}}`.
pub open spec fn error_json_v(e: ApiError) -> JsonV {
    JsonV::Object(
        seq![
            ("error"@, JsonV::Object(
                seq![
                    ("message"@, JsonV::Str(e.message@)),
                    ("type"@, JsonV::Str(e.kind@)),
                    ("param"@, JsonV::Null),
                    ("code"@, JsonV::Null),
                ],
            )),
        ],
    )
}

impl ApiError {
    pub fn new(status: u16, kind: &'static str, message: String) -> (r: Self)
        ensures
            r.status == status,
            r.kind == kind,
            r.message == message,
    {
        ApiError { status, message, kind }
    }

    /// 400, `invalid_request_error`.
    pub fn bad_request(message: String) -> (r: Self)
        ensures
            r.status == 400,
            r.kind@ == "invalid_request_error"@,
            r.message == message,
    {
        ApiError::new(400, "invalid_request_error", message)
    }

    /// 401, `invalid_request_error`.
    pub fn unauthorized(message: String) -> (r: Self)
        ensures
            r.status == 401,
            r.kind@ == "invalid_request_error"@,
            r.message == message,
    {
        ApiError::new(401, "invalid_request_error", message)
    }

    /// 502, `upstream_error`.
    pub fn upstream(message: String) -> (r: Self)
        ensures
            r.status == 502,
            r.kind@ == "upstream_error"@,
            r.message == message,
    {
        ApiError::new(502, "upstream_error", message)
    }

    /// A body that is not JSON of the expected shape, with the parser's
    /// own words.
    pub fn unparsable(detail: &str) -> (r: Self)
        ensures
            r.status == 400,
            r.kind@ == "invalid_request_error"@,
            r.message@ == "could not parse the request body: "@ + detail@,
    {
        ApiError::bad_request(concat("could not parse the request body: ", detail))
    }

    pub fn to_json(&self) -> (r: Json)
        ensures
            r@ == error_json_v(*self),
    {
        let inner = obj4(
            "message",
            Json::string(self.message.as_str()),
            "type",
            Json::string(self.kind),
            "param",
            Json::Null,
            "code",
            Json::Null,
        );
        obj1("error", inner)
    }
}

/// The token of an `Authorization` value in the Bearer scheme, spelled
/// `Bearer ` or `bearer `.
pub open spec fn bearer_token(v: Seq<char>) -> Option<Seq<char>> {
    if "Bearer "@.is_prefix_of(v) {
        Some(v.skip("Bearer "@.len() as int))
    } else if "bearer "@.is_prefix_of(v) {
        Some(v.skip("bearer "@.len() as int))
    } else {
        None
    }
}

/// The secret a request presents: the Bearer token of `Authorization`,
/// else the `x-api-key` value, else nothing; trimmed.
pub open spec fn presented(authorization: Option<Seq<char>>, x_api_key: Option<Seq<char>>) -> Seq<char> {
    let token = match authorization {
        Some(a) => bearer_token(a),
        None => None,
    };
    let chosen = match token {
        Some(t) => Some(t),
        None => x_api_key,
    };
    spec_trim(
        match chosen {
            Some(t) => t,
            None => Seq::empty(),
        },
    )
}


/// The secret presented in the `Authorization` or `x-api-key` header
/// values, whichever carries one. A bare `Authorization` value with no
/// Bearer scheme is no credential.
pub fn presented_secret<'a>(authorization: Option<&'a str>, x_api_key: Option<&'a str>) -> (r: &'a str)
    ensures
        r@ == presented(opt_str(authorization), opt_str(x_api_key)),
{
    let token = match authorization {
        Some(a) => match strip_prefix(a, "Bearer ") {
            Some(t) => Some(t),
            None => strip_prefix(a, "bearer "),
        },
        None => None,
    };
    let chosen = match token {
        Some(t) => Some(t),
        None => x_api_key,
    };
    match chosen {
        Some(t) => trim(t),
        None => {
            let empty = "";
            proof {
                reveal_strlit("");
            }
            assert(empty@ =~= Seq::<char>::empty());
            trim(empty)
        },
    }
}

/// Identifies the caller of a request from its headers; a secret that
/// matches nothing is answered 401.
pub fn check_key(config: &Config, store: &KeyStore, authorization: Option<&str>, x_api_key: Option<&str>) -> (r: Result<
    Caller,
    ApiError,
>)
    ensures
        match r {
            Ok(c) => spec_authenticate(*config, *store, presented(opt_str(authorization), opt_str(x_api_key)))
                == Ok::<(Option<Seq<char>>, Option<Seq<char>>), Seq<char>>((c.id_v(), c.name_v())),
            Err(e) => spec_authenticate(*config, *store, presented(opt_str(authorization), opt_str(x_api_key)))
                == Err::<(Option<Seq<char>>, Option<Seq<char>>), Seq<char>>(e.message@) && e.status == 401
                && e.kind@ == "invalid_request_error"@,
        },
{
    match authenticate(config, store, presented_secret(authorization, x_api_key)) {
        Ok(c) => Ok(c),
        Err(m) => Err(ApiError::unauthorized(m)),
    }
}

/// One entry of the model list. The creation date is not observable
/// through this backend, and clients only sort or show it.
pub open spec fn model_entry_v(id: Seq<char>) -> JsonV {
    JsonV::Object(
        seq![
            ("id"@, JsonV::Str(id)),
            ("object"@, JsonV::Str("model"@)),
            ("created"@, JsonV::PosInt(0)),
            ("owned_by"@, JsonV::Str("openai"@)),
        ],
    )
}

pub fn model_entry(id: &str) -> (r: Json)
    ensures
        r@ == model_entry_v(id@),
{
    obj4("id", Json::string(id), "object", Json::string("model"), "created", Json::PosInt(0), "owned_by", Json::string("openai"))
}

/// `{"object": "list", "data": [entries]}` over the configured models.
pub open spec fn model_list_v(models: Seq<String>) -> JsonV {
    JsonV::Object(
        seq![
            ("object"@, JsonV::Str("list"@)),
            ("data"@, JsonV::Array(models.map_values(|m: String| model_entry_v(m@)))),
        ],
    )
}

pub fn model_list(config: &Config) -> (r: Json)
    ensures
        r@ == model_list_v(config.models@),
{
    let mut data: Vec<Json> = Vec::new();
    let ghost want = config.models@.map_values(|m: String| model_entry_v(m@));
    for i in 0..config.models.len()
        invariant
            want == config.models@.map_values(|m: String| model_entry_v(m@)),
            jv_seq(data@) == want.take(i as int),
    {
        let e = model_entry(config.models[i].as_str());
        proof {
            crate::json::lemma_jv_seq_push(data@, e);
            assert(want.take(i + 1) =~= want.take(i as int).push(e@));
        }
        data.push(e);
    }
    assert(want.take(config.models@.len() as int) =~= want);
    obj2("object", Json::string("list"), "data", array_of(data))
}

/// Whether some configured model is `m`.
pub open spec fn serves(config: Config, m: Seq<char>) -> bool {
    exists|i: int| 0 <= i < config.models@.len() && #[trigger] config.models@[i]@ == m
}

/// The entry of one model; a model this login cannot serve is answered 404.
pub fn retrieve_model(config: &Config, model: &str) -> (r: Result<Json, ApiError>)
    ensures
        serves(*config, model@) ==> (r matches Ok(j) && j@ == model_entry_v(model@)),
        !serves(*config, model@) ==> (r matches Err(e) && e.status == 404 && e.kind@ == "invalid_request_error"@
            && e.message@ == "The model '"@ + model@ + "' does not exist or is not available to this login."@),
{
    for i in 0..config.models.len()
        invariant
            forall|j: int| 0 <= j < i ==> #[trigger] config.models@[j]@ != model@,
    {
        if str_eq(config.models[i].as_str(), model) {
            return Ok(model_entry(model));
        }
    }
    let head = concat("The model '", model);
    let message = concat(head.as_str(), "' does not exist or is not available to this login.");
    Err(ApiError::new(404, "invalid_request_error", message))
}

/// Usage as Chat Completions reports it.
pub open spec fn usage_json_v(u: Usage) -> JsonV {
    JsonV::Object(
        seq![
            ("prompt_tokens"@, JsonV::PosInt(u.prompt_tokens)),
            ("completion_tokens"@, JsonV::PosInt(u.completion_tokens)),
            ("total_tokens"@, JsonV::PosInt(u.total_tokens)),
            ("prompt_tokens_details"@, JsonV::Object(seq![("cached_tokens"@, JsonV::PosInt(u.cached_tokens))])),
            ("completion_tokens_details"@, JsonV::Object(
                seq![("reasoning_tokens"@, JsonV::PosInt(u.reasoning_tokens))],
            )),
        ],
    )
}

pub fn usage_json(u: &Usage) -> (r: Json)
    ensures
        r@ == usage_json_v(*u),
{
    obj5(
        "prompt_tokens",
        Json::PosInt(u.prompt_tokens),
        "completion_tokens",
        Json::PosInt(u.completion_tokens),
        "total_tokens",
        Json::PosInt(u.total_tokens),
        "prompt_tokens_details",
        obj1("cached_tokens", Json::PosInt(u.cached_tokens)),
        "completion_tokens_details",
        obj1("reasoning_tokens", Json::PosInt(u.reasoning_tokens)),
    )
}


/// The id of a new chat completion: `chatcmpl-` and a random UUID.
pub fn completion_id() -> (r: String)
    ensures
        exists|u: Seq<char>| u.len() == 32 && lower_hex(u) && r@ == "chatcmpl-"@ + u,
{
    let u = uuid_simple();
    concat("chatcmpl-", u.as_str())
}

/// A request body of `/v1/chat/completions` needs at least one message.
pub fn check_chat(request: &ChatRequest) -> (r: Result<(), ApiError>)
    ensures
        request.messages@.len() > 0 <==> r is Ok,
        r matches Err(e) ==> e.status == 400 && e.kind@ == "invalid_request_error"@ && e.message@
            == "'messages' must not be empty"@,
{
    if request.messages.len() == 0 {
        Err(ApiError::bad_request("'messages' must not be empty".to_string()))
    } else {
        Ok(())
    }
}

/// One chunk of a streamed chat completion.
pub open spec fn chunk_v(s: ChatStream, delta: JsonV, finish: Option<Seq<char>>) -> JsonV {
    JsonV::Object(
        seq![
            ("id"@, JsonV::Str(s.id@)),
            ("object"@, JsonV::Str("chat.completion.chunk"@)),
            ("created"@, jint(s.created)),
            ("model"@, JsonV::Str(s.model@)),
            ("choices"@, JsonV::Array(
                seq![
                    JsonV::Object(
                        seq![
                            ("index"@, JsonV::PosInt(0)),
                            ("delta"@, delta),
                            ("finish_reason"@, jopt(finish)),
                        ],
                    ),
                ],
            )),
        ],
    )
}

/// The delta an upstream event becomes, if it becomes one. A tool call's
/// name is sent once, up front; only its arguments stream after that.
pub open spec fn delta_v(e: EventV) -> Option<JsonV> {
    match e {
        EventV::TextDelta(t) => Some(JsonV::Object(seq![("content"@, JsonV::Str(t))])),
        EventV::ReasoningDelta(t) => Some(JsonV::Object(seq![("reasoning_content"@, JsonV::Str(t))])),
        EventV::ToolCallStart(index, id, name) => Some(
            JsonV::Object(
                seq![
                    ("tool_calls"@, JsonV::Array(
                        seq![
                            JsonV::Object(
                                seq![
                                    ("index"@, JsonV::PosInt(index as u64)),
                                    ("id"@, JsonV::Str(id)),
                                    ("type"@, JsonV::Str("function"@)),
                                    ("function"@, JsonV::Object(
                                        seq![("name"@, JsonV::Str(name)), ("arguments"@, JsonV::Str(""@))],
                                    )),
                                ],
                            ),
                        ],
                    )),
                ],
            ),
        ),
        EventV::ToolCallArgsDelta(index, delta) => Some(
            JsonV::Object(
                seq![
                    ("tool_calls"@, JsonV::Array(
                        seq![
                            JsonV::Object(
                                seq![
                                    ("index"@, JsonV::PosInt(index as u64)),
                                    ("function"@, JsonV::Object(seq![("arguments"@, JsonV::Str(delta))])),
                                ],
                            ),
                        ],
                    )),
                ],
            ),
        ),
        _ => None,
    }
}

/// The state of a streamed chat completion: what has been seen of the
/// upstream so far. The server sends `opening`, then what `on_event` hands
/// back for each event until a failure, then `closing`.
pub struct ChatStream {
    pub id: String,
    pub created: i64,
    pub model: String,
    pub include_usage: bool,
    pub usage: Usage,
    pub saw_tool_call: bool,
    /// Set once the upstream fails; nothing more is forwarded after it.
    pub failure: Option<String>,
}

/// The closing chunks: the failure in-band, since the headers went out long
/// ago; or the finish reason and, when asked for, the usage.
pub open spec fn closing_v(s: ChatStream) -> Seq<JsonV> {
    match s.failure {
        Some(m) => seq![
            JsonV::Object(
                seq![
                    ("error"@, JsonV::Object(
                        seq![("message"@, JsonV::Str(m@)), ("type"@, JsonV::Str("upstream_error"@))],
                    )),
                ],
            ),
        ],
        None => seq![
            chunk_v(
                s,
                JsonV::Object(Seq::empty()),
                Some(
                    if s.saw_tool_call {
                        "tool_calls"@
                    } else {
                        "stop"@
                    },
                ),
            ),
        ] + if s.include_usage {
            seq![usage_chunk_v(s)]
        } else {
            Seq::empty()
        },
    }
}

/// The extra chunk that carries usage: no choices, only the counts.
pub open spec fn usage_chunk_v(s: ChatStream) -> JsonV {
    JsonV::Object(
        seq![
            ("id"@, JsonV::Str(s.id@)),
            ("object"@, JsonV::Str("chat.completion.chunk"@)),
            ("created"@, jint(s.created)),
            ("model"@, JsonV::Str(s.model@)),
            ("choices"@, JsonV::Array(Seq::empty())),
            ("usage"@, usage_json_v(s.usage)),
        ],
    )
}

/// Whether an object has a field named `key`.
pub open spec fn has_field(v: JsonV, key: Seq<char>) -> bool {
    match v {
        JsonV::Object(fs) => exists|i: int| 0 <= i < fs.len() && #[trigger] fs[i].0 == key,
        _ => false,
    }
}

/// Clients expect the role exactly once, on the first chunk: no delta an
/// upstream event becomes carries one.
pub proof fn law_the_role_is_sent_once(e: EventV)
    ensures
        delta_v(e) matches Some(d) ==> !has_field(d, "role"@),
{
    reveal_strlit("role");
    reveal_strlit("content");
    reveal_strlit("reasoning_content");
    reveal_strlit("tool_calls");
    assert("role"@.len() == 4);
    assert("content"@ != "role"@) by {
        assert("content"@.len() != "role"@.len());
    }
    assert("reasoning_content"@ != "role"@) by {
        assert("reasoning_content"@.len() != "role"@.len());
    }
    assert("tool_calls"@ != "role"@) by {
        assert("tool_calls"@.len() != "role"@.len());
    }
}

/// A stream closes in a fixed order: on success the finish chunk, whose
/// reason is `tool_calls` exactly when a tool was called, then the usage
/// chunk only when the client asked for it; on failure the error alone,
/// with no finish chunk after it.
pub proof fn law_the_stream_closes_in_order(s: ChatStream)
    ensures
        s.failure is None ==> {
            &&& closing_v(s).len() == if s.include_usage { 2int } else { 1int }
            &&& closing_v(s)[0] == chunk_v(
                s,
                JsonV::Object(Seq::empty()),
                Some(if s.saw_tool_call { "tool_calls"@ } else { "stop"@ }),
            )
            &&& s.include_usage ==> closing_v(s)[1] == usage_chunk_v(s)
        },
        s.failure matches Some(m) ==> closing_v(s) == seq![
            JsonV::Object(
                seq![
                    ("error"@, JsonV::Object(
                        seq![("message"@, JsonV::Str(m@)), ("type"@, JsonV::Str("upstream_error"@))],
                    )),
                ],
            ),
        ],
{
}

/// The first chunk of a stream, which alone carries the role.
pub open spec fn opening_v(s: ChatStream) -> JsonV {
    chunk_v(s, JsonV::Object(seq![("role"@, JsonV::Str("assistant"@)), ("content"@, JsonV::Str(""@))]), None)
}

/// What one upstream event does to a stream's state: the usage is the last
/// one reported, a tool call is remembered, a failure is kept, and the
/// chunk identity never changes.
pub open spec fn stepped(s: ChatStream, e: EventV, t: ChatStream) -> bool {
    &&& t.id == s.id
    &&& t.created == s.created
    &&& t.model == s.model
    &&& t.include_usage == s.include_usage
    &&& t.usage == match e {
        EventV::Completed(u) => u,
        _ => s.usage,
    }
    &&& t.saw_tool_call == (s.saw_tool_call || e is ToolCallStart)
    &&& ostr(t.failure) == match e {
        EventV::Failed(m) => Some(m),
        _ => ostr(s.failure),
    }
}

/// The chunks forwarded for `es`, each built from the state it met:
/// `states[i]` is the state before event `i`.
pub open spec fn emitted(states: Seq<ChatStream>, es: Seq<EventV>) -> Seq<JsonV>
    decreases es.len(),
{
    if es.len() == 0 {
        Seq::empty()
    } else {
        let rest = emitted(states, es.drop_last());
        match delta_v(es.last()) {
            Some(d) => rest.push(chunk_v(states[es.len() - 1], d, None)),
            None => rest,
        }
    }
}

/// One chunk per event that carries a delta, in event order.
pub open spec fn delta_chunks(s: ChatStream, es: Seq<EventV>) -> Seq<JsonV>
    decreases es.len(),
{
    if es.len() == 0 {
        Seq::empty()
    } else {
        let rest = delta_chunks(s, es.drop_last());
        match delta_v(es.last()) {
            Some(d) => rest.push(chunk_v(s, d, None)),
            None => rest,
        }
    }
}

/// Some event announced a tool call.
pub open spec fn any_tool_call(es: Seq<EventV>) -> bool {
    exists|i: int| 0 <= i < es.len() && (#[trigger] es[i]) is ToolCallStart
}

/// The usage of the last `Completed` event, or `u` when none came.
pub open spec fn last_usage(u: Usage, es: Seq<EventV>) -> Usage
    decreases es.len(),
{
    if es.len() == 0 {
        u
    } else {
        match es.last() {
            EventV::Completed(x) => x,
            _ => last_usage(u, es.drop_last()),
        }
    }
}

proof fn lemma_stream_prefix(states: Seq<ChatStream>, es: Seq<EventV>, k: int)
    requires
        0 <= k <= es.len(),
        states.len() == es.len() + 1,
        !states[0].saw_tool_call,
        states[0].failure is None,
        forall|i: int| 0 <= i < es.len() ==> #[trigger] stepped(states[i], es[i], states[i + 1]),
        forall|i: int| 0 <= i < es.len() ==> !((#[trigger] es[i]) is Failed),
    ensures
        states[k].id == states[0].id,
        states[k].created == states[0].created,
        states[k].model == states[0].model,
        states[k].include_usage == states[0].include_usage,
        states[k].saw_tool_call == any_tool_call(es.take(k)),
        states[k].failure is None,
        states[k].usage == last_usage(states[0].usage, es.take(k)),
        emitted(states, es.take(k)) == delta_chunks(states[0], es.take(k)),
    decreases k,
{
    if k > 0 {
        lemma_stream_prefix(states, es, k - 1);
        let before = es.take(k - 1);
        let now = es.take(k);
        assert(now.drop_last() =~= before);
        assert(now.last() == es[k - 1]);
        let i = k - 1;
        assert(stepped(states[i], es[i], states[i + 1]));
        assert(states[i + 1] == states[k]);
        assert(states[k].saw_tool_call == any_tool_call(now)) by {
            if es[k - 1] is ToolCallStart {
                assert(now[k - 1] is ToolCallStart);
            }
            if any_tool_call(before) {
                let w = choose|w: int| 0 <= w < before.len() && (#[trigger] before[w]) is ToolCallStart;
                assert(now[w] == before[w]);
            }
            if any_tool_call(now) {
                let w = choose|w: int| 0 <= w < now.len() && (#[trigger] now[w]) is ToolCallStart;
                if w < k - 1 {
                    assert(before[w] == now[w]);
                }
            }
        }
    } else {
        assert(es.take(0) =~= Seq::<EventV>::empty());
    }
}

/// What a whole stream yields, in order, when no event fails: the opening
/// chunk with the role; one chunk per event that carries a delta, in event
/// order, each built as the first state would build it; the finish chunk,
/// whose reason is `tool_calls` exactly when some event announced a tool
/// call; and, only when the client asked, the usage chunk with the last
/// usage the upstream reported. `states[i]` is the state before event `i`,
/// as `ChatStream::new` and then `on_event` leave it.
pub proof fn law_a_whole_stream(states: Seq<ChatStream>, es: Seq<EventV>)
    requires
        states.len() == es.len() + 1,
        !states[0].saw_tool_call,
        states[0].failure is None,
        forall|i: int| 0 <= i < es.len() ==> #[trigger] stepped(states[i], es[i], states[i + 1]),
        forall|i: int| 0 <= i < es.len() ==> !((#[trigger] es[i]) is Failed),
    ensures
        seq![opening_v(states[0])] + emitted(states, es) + closing_v(states.last()) == seq![opening_v(states[0])]
            + delta_chunks(states[0], es) + seq![
            chunk_v(
                states[0],
                JsonV::Object(Seq::empty()),
                Some(if any_tool_call(es) { "tool_calls"@ } else { "stop"@ }),
            ),
        ] + if states[0].include_usage {
            seq![usage_chunk_v(states.last())]
        } else {
            Seq::empty()
        },
        states.last().usage == last_usage(states[0].usage, es),
{
    let n = es.len() as int;
    lemma_stream_prefix(states, es, n);
    assert(es.take(n) =~= es);
    assert(states.last() == states[n]);
    let last = states[n];
    assert(chunk_v(last, JsonV::Object(Seq::empty()), Some(if any_tool_call(es) { "tool_calls"@ } else { "stop"@ }))
        == chunk_v(states[0], JsonV::Object(Seq::empty()), Some(if any_tool_call(es) { "tool_calls"@ } else { "stop"@ })));
    assert(seq![opening_v(states[0])] + emitted(states, es) + closing_v(last) =~= seq![opening_v(states[0])]
        + delta_chunks(states[0], es) + closing_v(last));
}

/// Reasoning and answer text travel in different fields: a reasoning delta
/// becomes a delta with `reasoning_content` and no `content`, and only a
/// text delta sets `content`.
pub proof fn law_reasoning_is_not_sent_as_text(t: Seq<char>)
    ensures
        delta_v(EventV::ReasoningDelta(t)) matches Some(d) && jget(d, "reasoning_content"@) == Some(JsonV::Str(t))
            && jget(d, "content"@) is None,
        delta_v(EventV::TextDelta(t)) matches Some(d) && jget(d, "content"@) == Some(JsonV::Str(t)) && jget(
            d,
            "reasoning_content"@,
        ) is None,
{
    reveal_strlit("content");
    reveal_strlit("reasoning_content");
    assert("content"@.len() == 7 && "reasoning_content"@.len() == 17);
    let r = seq![("reasoning_content"@, JsonV::Str(t))];
    let c = seq![("content"@, JsonV::Str(t))];
    crate::json::lemma_field_of_at(r, "reasoning_content"@, 0);
    crate::json::lemma_field_of_absent(r, "content"@);
    crate::json::lemma_field_of_at(c, "content"@, 0);
    crate::json::lemma_field_of_absent(c, "reasoning_content"@);
}

impl ChatStream {
    pub fn new(id: String, created: i64, model: String, include_usage: bool) -> (r: Self)
        ensures
            r.id == id,
            r.created == created,
            r.model == model,
            r.include_usage == include_usage,
            r.usage == zero_usage(),
            !r.saw_tool_call,
            r.failure is None,
    {
        ChatStream { id, created, model, include_usage, usage: Usage::zero(), saw_tool_call: false, failure: None }
    }

    fn chunk(&self, delta: Json, finish: Option<&str>) -> (r: Json)
        ensures
            r@ == chunk_v(*self, delta@, opt_str(finish)),
    {
        let choice = obj3("index", Json::PosInt(0), "delta", delta, "finish_reason", opt_string(finish));
        obj5(
            "id",
            Json::string(self.id.as_str()),
            "object",
            Json::string("chat.completion.chunk"),
            "created",
            integer(self.created),
            "model",
            Json::string(self.model.as_str()),
            "choices",
            array1(choice),
        )
    }

    /// The first chunk, which alone carries the role.
    pub fn opening(&self) -> (r: Json)
        ensures
            r@ == opening_v(*self),
    {
        self.chunk(obj2("role", Json::string("assistant"), "content", Json::string("")), None)
    }

    /// Takes one upstream event: answers the chunk to forward, if any, and
    /// keeps the usage, whether a tool was called, and a failure.
    pub fn on_event(&mut self, kind: EventKind) -> (r: Option<Json>)
        ensures
            stepped(*old(self), kind@, *final(self)),
            ojv(r) == match delta_v(kind@) {
                Some(d) => Some(chunk_v(*old(self), d, None)),
                None => None,
            },
    {
        match kind {
            EventKind::TextDelta(text) => Some(self.chunk(obj1("content", Json::Str(text)), None)),
            EventKind::ReasoningDelta(text) => Some(self.chunk(obj1("reasoning_content", Json::Str(text)), None)),
            EventKind::ToolCallStart { index, call_id, name } => {
                self.saw_tool_call = true;
                let function = obj2("name", Json::Str(name), "arguments", Json::string(""));
                let call = obj4(
                    "index",
                    Json::PosInt(index as u64),
                    "id",
                    Json::Str(call_id),
                    "type",
                    Json::string("function"),
                    "function",
                    function,
                );
                Some(self.chunk(obj1("tool_calls", array1(call)), None))
            },
            EventKind::ToolCallArgsDelta { index, delta } => {
                let call = obj2("index", Json::PosInt(index as u64), "function", obj1("arguments", Json::Str(delta)));
                Some(self.chunk(obj1("tool_calls", array1(call)), None))
            },
            EventKind::Completed { usage } => {
                self.usage = usage;
                None
            },
            EventKind::Failed(message) => {
                self.failure = Some(message);
                None
            },
            _ => None,
        }
    }

    /// The upstream connection broke: that is the failure.
    pub fn on_error(&mut self, message: String)
        ensures
            final(self).failure == Some(message),
            final(self).id == old(self).id,
            final(self).created == old(self).created,
            final(self).model == old(self).model,
            final(self).include_usage == old(self).include_usage,
            final(self).usage == old(self).usage,
            final(self).saw_tool_call == old(self).saw_tool_call,
    {
        self.failure = Some(message);
    }

    /// What is sent once the upstream is done, before the end marker.
    pub fn closing(&self) -> (r: Vec<Json>)
        ensures
            jv_seq(r@) == closing_v(*self),
    {
        let mut out: Vec<Json> = Vec::new();
        match &self.failure {
            Some(m) => {
                out.push(obj1("error", obj2("message", Json::string(m.as_str()), "type", Json::string("upstream_error"))));
            },
            None => {
                let finish = if self.saw_tool_call {
                    "tool_calls"
                } else {
                    "stop"
                };
                out.push(self.chunk(empty_object(), Some(finish)));
                if self.include_usage {
                    out.push(
                        obj6(
                            "id",
                            Json::string(self.id.as_str()),
                            "object",
                            Json::string("chat.completion.chunk"),
                            "created",
                            integer(self.created),
                            "model",
                            Json::string(self.model.as_str()),
                            "choices",
                            array_of(Vec::new()),
                            "usage",
                            usage_json(&self.usage),
                        ),
                    );
                }
            },
        }
        proof {
            crate::json::lemma_jv_seq(out@);
            assert(jv_seq(out@) =~= closing_v(*self));
        }
        out
    }
}


/// A tool call, from its id, name and arguments, as Chat Completions writes it.
pub open spec fn call_triple_json(c: (Seq<char>, Seq<char>, Seq<char>)) -> JsonV {
    JsonV::Object(
        seq![
            ("id"@, JsonV::Str(c.0)),
            ("type"@, JsonV::Str("function"@)),
            ("function"@, JsonV::Object(seq![("name"@, JsonV::Str(c.1)), ("arguments"@, JsonV::Str(c.2))])),
        ],
    )
}

/// The assistant message that finished output items add up to: the text,
/// null when the model only called tools; the reasoning and the tool calls
/// when there are any.
pub open spec fn reply_v(items: Seq<JsonV>) -> JsonV {
    let text = assembled_text(items);
    let reasoning = assembled_reasoning(items);
    let calls = assembled_calls(items);
    JsonV::Object(
        seq![
            ("role"@, JsonV::Str("assistant"@)),
            ("content"@, if text.len() == 0 && calls.len() > 0 {
                JsonV::Null
            } else {
                JsonV::Str(text)
            }),
        ] + (if reasoning.len() > 0 {
            seq![("reasoning_content"@, JsonV::Str(reasoning))]
        } else {
            Seq::empty()
        }) + (if calls.len() > 0 {
            seq![("tool_calls"@, JsonV::Array(calls.map_values(|c: (Seq<char>, Seq<char>, Seq<char>)| call_triple_json(c))))]
        } else {
            Seq::empty()
        }),
    )
}

/// `tool_calls` when the model called a tool, `stop` otherwise.
pub open spec fn finish_v(items: Seq<JsonV>) -> Seq<char> {
    if assembled_calls(items).len() == 0 {
        "stop"@
    } else {
        "tool_calls"@
    }
}

/// A whole chat completion.
pub open spec fn completion_body_v(id: Seq<char>, created: i64, model: Seq<char>, items: Seq<JsonV>, usage: Usage) -> JsonV {
    JsonV::Object(
        seq![
            ("id"@, JsonV::Str(id)),
            ("object"@, JsonV::Str("chat.completion"@)),
            ("created"@, jint(created)),
            ("model"@, JsonV::Str(model)),
            ("choices"@, JsonV::Array(
                seq![
                    JsonV::Object(
                        seq![
                            ("index"@, JsonV::PosInt(0)),
                            ("message"@, reply_v(items)),
                            ("finish_reason"@, JsonV::Str(finish_v(items))),
                        ],
                    ),
                ],
            )),
            ("usage"@, usage_json_v(usage)),
        ],
    )
}

/// The body of a non-streamed chat completion, from the finished output
/// items and the usage of the upstream response.
pub fn completion_body(id: &str, created: i64, model: &str, items: &[Json], usage: &Usage) -> (r: Json)
    ensures
        r@ == completion_body_v(id@, created, model@, jv_seq(items@), *usage),
{
    let assembled = AssembledMessage::from_output_items(items);
    let finish = assembled.finish_reason();
    let message = assembled.to_message_json();
    proof {
        let m = assembled;
        let calls = assembled_calls(jv_seq(items@));
        assert(m.tool_calls@.len() == calls.len()) by {
            assert(calls_v(m.tool_calls@).len() == m.tool_calls@.len());
        }
        let a = m.tool_calls@.map_values(|c: ChatToolCall| call_json_v(c));
        let b = calls.map_values(|c: (Seq<char>, Seq<char>, Seq<char>)| call_triple_json(c));
        assert(a =~= b) by {
            assert forall|k: int| 0 <= k < calls.len() implies #[trigger] a[k] == b[k] by {
                assert(calls_v(m.tool_calls@)[k] == calls[k]);
                assert(m.tool_calls@[k].kind@ == "function"@);
            }
        }
        assert(message@ == reply_v(jv_seq(items@)));
    }
    let choice = obj3("index", Json::PosInt(0), "message", message, "finish_reason", Json::string(finish));
    obj6(
        "id",
        Json::string(id),
        "object",
        Json::string("chat.completion"),
        "created",
        integer(created),
        "model",
        Json::string(model),
        "choices",
        array1(choice),
        "usage",
        usage_json(usage),
    )
}

/// What a body-wanting consumer keeps of the upstream events: the finished
/// items, the usage, and the upstream response id.
pub struct Collected {
    pub items: Vec<Json>,
    pub usage: Usage,
    pub response_id: String,
}

impl Collected {
    pub fn new() -> (r: Self)
        ensures
            r.items@.len() == 0,
            r.usage == zero_usage(),
            r.response_id@.len() == 0,
    {
        Collected { items: Vec::new(), usage: Usage::zero(), response_id: String::new() }
    }

    /// Keeps what an event carries; a failure is handed back, since it ends
    /// the request with an error while nothing has been sent yet.
    pub fn take(&mut self, kind: EventKind) -> (r: Option<String>)
        ensures
            jv_seq(final(self).items@) == match kind@ {
                EventV::ItemDone(v) => jv_seq(old(self).items@).push(v),
                _ => jv_seq(old(self).items@),
            },
            final(self).usage == match kind@ {
                EventV::Completed(u) => u,
                _ => old(self).usage,
            },
            final(self).response_id@ == match kind@ {
                EventV::Created(id) => id,
                _ => old(self).response_id@,
            },
            ostr(r) == match kind@ {
                EventV::Failed(m) => Some(m),
                _ => None,
            },
    {
        match kind {
            EventKind::Created { response_id } => {
                self.response_id = response_id;
                None
            },
            EventKind::ItemDone(item) => {
                proof {
                    crate::json::lemma_jv_seq_push(self.items@, item);
                }
                self.items.push(item);
                None
            },
            EventKind::Completed { usage } => {
                self.usage = usage;
                None
            },
            EventKind::Failed(message) => Some(message),
            _ => None,
        }
    }
}

/// The upstream response id, or a fresh `resp_` id where it sent none.
pub fn response_id_or_new(id: String) -> (r: String)
    ensures
        id@.len() > 0 ==> r@ == id@,
        id@.len() == 0 ==> exists|u: Seq<char>| u.len() == 32 && lower_hex(u) && r@ == "resp_"@ + u,
{
    if id.as_str().unicode_len() > 0 {
        id
    } else {
        let u = uuid_simple();
        concat("resp_", u.as_str())
    }
}

/// A whole Response object, rebuilt from the finished output items, which
/// this backend sends more reliably than the completed event's own list.
pub open spec fn response_body_v(id: Seq<char>, created_at: i64, model: Seq<char>, items: Seq<JsonV>, usage: Usage) -> JsonV {
    JsonV::Object(
        seq![
            ("id"@, JsonV::Str(id)),
            ("object"@, JsonV::Str("response"@)),
            ("created_at"@, jint(created_at)),
            ("model"@, JsonV::Str(model)),
            ("status"@, JsonV::Str("completed"@)),
            ("output"@, JsonV::Array(items)),
            ("usage"@, JsonV::Object(
                seq![
                    ("input_tokens"@, JsonV::PosInt(usage.prompt_tokens)),
                    ("input_tokens_details"@, JsonV::Object(seq![("cached_tokens"@, JsonV::PosInt(usage.cached_tokens))])),
                    ("output_tokens"@, JsonV::PosInt(usage.completion_tokens)),
                    ("output_tokens_details"@, JsonV::Object(
                        seq![("reasoning_tokens"@, JsonV::PosInt(usage.reasoning_tokens))],
                    )),
                    ("total_tokens"@, JsonV::PosInt(usage.total_tokens)),
                ],
            )),
        ],
    )
}

pub fn response_body(id: &str, created_at: i64, model: &str, items: Vec<Json>, usage: &Usage) -> (r: Json)
    ensures
        r@ == response_body_v(id@, created_at, model@, jv_seq(items@), *usage),
{
    let counts = obj5(
        "input_tokens",
        Json::PosInt(usage.prompt_tokens),
        "input_tokens_details",
        obj1("cached_tokens", Json::PosInt(usage.cached_tokens)),
        "output_tokens",
        Json::PosInt(usage.completion_tokens),
        "output_tokens_details",
        obj1("reasoning_tokens", Json::PosInt(usage.reasoning_tokens)),
        "total_tokens",
        Json::PosInt(usage.total_tokens),
    );
    obj7(
        "id",
        Json::string(id),
        "object",
        Json::string("response"),
        "created_at",
        integer(created_at),
        "model",
        Json::string(model),
        "status",
        Json::string("completed"),
        "output",
        array_of(items),
        "usage",
        counts,
    )
}

/// What the passthrough watches in the events it relays: the usage and a
/// failure, for the usage log.
pub struct Watch {
    pub usage: Usage,
    pub failure: Option<String>,
}

impl Watch {
    pub fn new() -> (r: Self)
        ensures
            r.usage == zero_usage(),
            r.failure is None,
    {
        Watch { usage: Usage::zero(), failure: None }
    }

    pub fn observe(&mut self, kind: &EventKind)
        ensures
            final(self).usage == match kind@ {
                EventV::Completed(u) => u,
                _ => old(self).usage,
            },
            ostr(final(self).failure) == match kind@ {
                EventV::Failed(m) => Some(m),
                _ => ostr(old(self).failure),
            },
    {
        match kind {
            EventKind::Completed { usage } => {
                self.usage = *usage;
            },
            EventKind::Failed(message) => {
                self.failure = Some(message.clone());
            },
            _ => {},
        }
    }
}

/// The SSE event name a relayed event goes out under: its own `type`,
/// which is how Responses clients dispatch.
pub fn event_name(raw: &Json) -> (r: Option<&str>)
    ensures
        opt_str(r) == jstr(jget(raw@, "type"@)),
{
    match raw.get("type") {
        Some(t) => t.as_str(),
        None => None,
    }
}

/// A `/v1/responses` request, ready to go upstream.
#[derive(Debug)]
pub struct ResponsesCall {
    /// The client's body with `model` set to the one served.
    pub body: Json,
    pub model: String,
    /// Whether the client asked for a stream; upstream always streams.
    pub stream: bool,
}

/// Reads a `/v1/responses` body: it must be a JSON object; its model is
/// clamped to what this login can serve and written back into it.
pub fn prepare_responses(body: &[u8], config: &Config) -> (r: Result<ResponsesCall, ApiError>)
    ensures
        match json_parse_bytes(body@) {
            Err(e) => r matches Err(err) && err.status == 400 && err.kind@ == "invalid_request_error"@ && err.message@
                == "could not parse the request body: "@ + e,
            Ok(v) => if v is Object {
                r matches Ok(call) && {
                    let model = config.resolved_model(jstr(jget(v, "model"@)));
                    &&& call.model@ == model
                    &&& call.stream == (jbool(jget(v, "stream"@)) == Some(true))
                    &&& call.body@ == with_field_v(v, "model"@, JsonV::Str(model))
                }
            } else {
                r matches Err(err) && err.status == 400 && err.kind@ == "invalid_request_error"@ && err.message@
                    == "the request body must be a JSON object"@
            },
        },
{
    let request = match parse_json_bytes(body) {
        Ok(v) => v,
        Err(e) => {
            return Err(ApiError::unparsable(e.as_str()));
        },
    };
    let is_object = match &request {
        Json::Object(_) => true,
        _ => false,
    };
    if !is_object {
        return Err(ApiError::bad_request("the request body must be a JSON object".to_string()));
    }
    let stream = match request.get("stream") {
        Some(v) => match v.as_bool() {
            Some(b) => b,
            None => false,
        },
        None => false,
    };
    let requested = match request.get("model") {
        Some(v) => v.as_str(),
        None => None,
    };
    proof {
        assert(opt_str(requested) == jstr(jget(request@, "model"@)));
    }
    let model = config.resolve_model(requested);
    let body = with_field(request, "model", Json::string(model.as_str()));
    Ok(ResponsesCall { body, model, stream })
}


#[verifier::external_type_specification]
#[verifier::external_body]
pub struct ExInstant(std::time::Instant);

/// `std::time::Instant::now()`.
#[verifier::external_body]
fn instant_now() -> std::time::Instant {
    std::time::Instant::now()
}

/// `started.elapsed().as_millis()`, cut to 64 bits. It depends on the
/// clock, so nothing is claimed of it.
#[verifier::external_body]
fn elapsed_ms(started: &std::time::Instant) -> u64 {
    started.elapsed().as_millis() as u64
}

fn clone_name(o: &Option<String>) -> (r: Option<String>)
    ensures
        ostr(r) == ostr(*o),
{
    match o {
        Some(s) => Some(s.clone()),
        None => None,
    }
}

/// What a request cost, collected while it runs; `finish` makes the one
/// usage row it is logged as.
pub struct Recorder {
    pub started: std::time::Instant,
    pub endpoint: &'static str,
    pub model: String,
    pub stream: bool,
    pub caller: Caller,
}

impl Recorder {
    pub fn new(endpoint: &'static str, model: String, stream: bool, caller: Caller) -> (r: Self)
        ensures
            r.endpoint == endpoint,
            r.model == model,
            r.stream == stream,
            r.caller == caller,
    {
        Recorder { started: instant_now(), endpoint, model, stream, caller }
    }

    /// The usage row of the request: its counts, whether it failed and why,
    /// and which key made it; stamped with the time and duration.
    pub fn finish(&self, usage: Usage, error: Option<String>) -> (r: Record)
        ensures
            r.endpoint@ == self.endpoint@,
            r.model@ == self.model@,
            r.prompt_tokens == usage.prompt_tokens,
            r.completion_tokens == usage.completion_tokens,
            r.total_tokens == usage.total_tokens,
            r.cached_tokens == usage.cached_tokens,
            r.reasoning_tokens == usage.reasoning_tokens,
            r.stream == self.stream,
            r.ok == error is None,
            ostr(r.error) == ostr(error),
            ostr(r.key_id) == self.caller.id_v(),
            ostr(r.key_name) == self.caller.name_v(),
    {
        let ok = error.is_none();
        Record {
            ts: now_unix(),
            endpoint: self.endpoint.to_string(),
            model: self.model.clone(),
            prompt_tokens: usage.prompt_tokens,
            completion_tokens: usage.completion_tokens,
            total_tokens: usage.total_tokens,
            cached_tokens: usage.cached_tokens,
            reasoning_tokens: usage.reasoning_tokens,
            stream: self.stream,
            ok,
            duration_ms: elapsed_ms(&self.started),
            error,
            key_id: clone_name(&self.caller.key_id),
            key_name: clone_name(&self.caller.key_name),
        }
    }
}


/// `/health`: whether a login is stored, whose, and what is served.
pub open spec fn health_v(config: Config, cred: Option<crate::auth::Credential>) -> JsonV {
    JsonV::Object(
        seq![
            ("status"@, JsonV::Str("ok"@)),
            ("signed_in"@, JsonV::Bool(cred is Some)),
            ("account_id"@, jopt(
                match cred {
                    Some(c) => Some(c.account_id@),
                    None => None,
                },
            )),
            ("plan"@, jopt(
                match cred {
                    Some(c) => ostr(c.plan),
                    None => None,
                },
            )),
            ("models"@, jstrings(config.models@)),
            ("default_model"@, JsonV::Str(config.default_model@)),
        ],
    )
}

pub fn health_json(config: &Config, cred: Option<&crate::auth::Credential>) -> (r: Json)
    ensures
        r@ == health_v(
            *config,
            match cred {
                Some(c) => Some(*c),
                None => None,
            },
        ),
{
    let (account, plan) = match cred {
        Some(c) => (
            Json::string(c.account_id.as_str()),
            match &c.plan {
                Some(p) => Json::string(p.as_str()),
                None => Json::Null,
            },
        ),
        None => (Json::Null, Json::Null),
    };
    let signed_in = match cred {
        Some(_) => true,
        None => false,
    };
    let ghost c = match cred {
        Some(c) => Some(*c),
        None => None::<crate::auth::Credential>,
    };
    assert(account@ == jopt(
        match c {
            Some(c) => Some(c.account_id@),
            None => None,
        },
    ));
    assert(plan@ == jopt(
        match c {
            Some(c) => ostr(c.plan),
            None => None,
        },
    ));
    let r = obj6(
        "status",
        Json::string("ok"),
        "signed_in",
        Json::Bool(signed_in),
        "account_id",
        account,
        "plan",
        plan,
        "models",
        strings(&config.models),
        "default_model",
        Json::string(config.default_model.as_str()),
    );
    assert(r@->Object_0 =~= health_v(*config, c)->Object_0);
    r
}

} // verus!
