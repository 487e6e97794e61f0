//! Chat Completions <-> Responses translation.
//!
//! Both formats carry text, images and tool calls under different names:
//! tools are declared as `tools[].function.{..}` versus `tools[].{..}`, the
//! model calls one in `message.tool_calls[]` versus a `function_call` output
//! item, and a result comes back as `{role:"tool"}` versus a
//! `function_call_output` input item.

use vstd::prelude::*;
use crate::config::Config;
use crate::json::{lemma_field_of_absent, lemma_field_of_at, append_all, empty_object, field, jv_fields, lemma_jv_fields_push, array_of, clone_json, jarr, jbool, jget, jstr, jv, jv_seq, lemma_jv_seq, lemma_jv_seq_push, obj1, obj2, obj3, obj4, opt_jv, str_eq, Json, JsonV};

verus! {

broadcast use vstd::string::group_string_axioms;

// --- inbound: Chat Completions request ------------------------------------

pub struct StreamOptions {
    pub include_usage: bool,
}

pub struct ChatFunctionCall {
    pub name: String,
    pub arguments: String,
}

pub struct ChatToolCall {
    pub id: String,
    /// The wire's `type`; always `function` in practice.
    pub kind: String,
    pub function: ChatFunctionCall,
}

pub struct ChatMessage {
    pub role: String,
    /// `None` both when the field is absent and when it is `null`.
    pub content: Option<Json>,
    pub tool_calls: Option<Vec<ChatToolCall>>,
    pub tool_call_id: Option<String>,
}

pub struct ChatRequest {
    pub model: Option<String>,
    pub messages: Vec<ChatMessage>,
    pub stream: Option<bool>,
    pub stream_options: Option<StreamOptions>,
    pub tools: Option<Vec<Json>>,
    pub tool_choice: Option<Json>,
    pub parallel_tool_calls: Option<bool>,
    pub reasoning_effort: Option<String>,
    pub max_completion_tokens: Option<u64>,
    pub max_tokens: Option<u64>,
}

pub open spec fn ojv(o: Option<Json>) -> Option<JsonV> {
    match o {
        Some(j) => Some(j@),
        None => None,
    }
}

pub open spec fn sv(s: &str) -> JsonV {
    JsonV::Str(s@)
}

/// The `text` strings of a list of parts, concatenated.
pub open spec fn texts_of(parts: Seq<JsonV>) -> Seq<char>
    decreases parts.len(),
{
    if parts.len() == 0 {
        Seq::empty()
    } else {
        texts_of(parts.drop_last()) + match jstr(jget(parts.last(), "text"@)) {
            Some(t) => t,
            None => Seq::empty(),
        }
    }
}

/// A message's content as plain text: the string itself, or the `text` of
/// each part of an array, and nothing for anything else.
pub open spec fn content_text(c: Option<JsonV>) -> Seq<char> {
    match c {
        Some(JsonV::Str(s)) => s,
        Some(JsonV::Array(parts)) => texts_of(parts),
        _ => Seq::empty(),
    }
}

/// Flattens Chat Completions' content field, which is either a plain string
/// or an array of typed parts.
pub fn content_to_text(content: Option<&Json>) -> (r: String)
    ensures
        r@ == content_text(opt_jv(content)),
{
    match content {
        Some(Json::Str(s)) => s.clone(),
        Some(Json::Array(parts)) => {
            proof {
                lemma_jv_seq(parts@);
            }
            let mut out = String::new();
            let mut i: usize = 0;
            while i < parts.len()
                invariant
                    i <= parts.len(),
                    out@ == texts_of(jv_seq(parts@).take(i as int)),
                    jv_seq(parts@).len() == parts@.len(),
                    forall|k: int| 0 <= k < parts@.len() ==> #[trigger] jv_seq(parts@)[k] == jv(parts@[k]),
                decreases parts.len() - i,
            {
                let ghost t = jv_seq(parts@).take(i + 1);
                assert(t.drop_last() =~= jv_seq(parts@).take(i as int));
                assert(t.last() == jv(parts@[i as int]));
                match parts[i].get("text") {
                    Some(v) => match v.as_str() {
                        Some(text) => out.append(text),
                        None => {
                            assert(out@ + Seq::<char>::empty() =~= out@);
                        },
                    },
                    None => {
                        assert(out@ + Seq::<char>::empty() =~= out@);
                    },
                }
                i = i + 1;
            }
            assert(jv_seq(parts@).take(parts@.len() as int) =~= jv_seq(parts@));
            out
        },
        _ => String::new(),
    }
}

} // verus!

verus! {

pub open spec fn input_text_v(t: Seq<char>) -> JsonV {
    JsonV::Object(seq![("type"@, sv("input_text")), ("text"@, JsonV::Str(t))])
}

pub open spec fn input_image_v(url: Seq<char>) -> JsonV {
    JsonV::Object(seq![("type"@, sv("input_image")), ("image_url"@, JsonV::Str(url))])
}

/// The URL of an `image_url` part, in either shape clients send it:
/// `{image_url:{url}}` or `{image_url:"..."}`.
pub open spec fn image_url_of(part: JsonV) -> Option<Seq<char>> {
    match jget(part, "image_url"@) {
        Some(iu) => match jstr(jget(iu, "url"@)) {
            Some(u) => Some(u),
            None => jstr(Some(iu)),
        },
        None => None,
    }
}

/// The Responses input part for one Chat Completions content part, if any.
pub open spec fn part_input(part: JsonV) -> Option<JsonV> {
    if jstr(jget(part, "type"@)) == Some("image_url"@) {
        match image_url_of(part) {
            Some(url) => Some(input_image_v(url)),
            None => None,
        }
    } else {
        match jstr(jget(part, "text"@)) {
            Some(t) => Some(input_text_v(t)),
            None => None,
        }
    }
}

pub open spec fn parts_input(parts: Seq<JsonV>) -> Seq<JsonV>
    decreases parts.len(),
{
    if parts.len() == 0 {
        Seq::empty()
    } else {
        let rest = parts_input(parts.drop_last());
        match part_input(parts.last()) {
            Some(p) => rest.push(p),
            None => rest,
        }
    }
}

/// User content as Responses input parts: each part of an array that is an
/// image or has text, or else the whole content as one text part.
pub open spec fn user_parts(c: Option<JsonV>) -> Seq<JsonV> {
    match c {
        Some(JsonV::Array(parts)) => parts_input(parts),
        _ => seq![input_text_v(content_text(c))],
    }
}

fn input_text(t: &str) -> (r: Json)
    ensures
        r@ == input_text_v(t@),
{
    obj2("type", Json::string("input_text"), "text", Json::string(t))
}

fn part_to_input(part: &Json) -> (r: Option<Json>)
    ensures
        match r {
            Some(j) => part_input(part@) == Some(j@),
            None => part_input(part@) is None,
        },
{
    let is_image = match part.get("type") {
        Some(t) => match t.as_str() {
            Some(s) => str_eq(s, "image_url"),
            None => false,
        },
        None => false,
    };
    if is_image {
        let url: Option<&str> = match part.get("image_url") {
            Some(iu) => match iu.get("url") {
                Some(u) => match u.as_str() {
                    Some(s) => Some(s),
                    None => iu.as_str(),
                },
                None => iu.as_str(),
            },
            None => None,
        };
        match url {
            Some(u) => Some(obj2("type", Json::string("input_image"), "image_url", Json::string(u))),
            None => None,
        }
    } else {
        match part.get("text") {
            Some(t) => match t.as_str() {
                Some(s) => Some(input_text(s)),
                None => None,
            },
            None => None,
        }
    }
}

/// Maps user content into Responses input parts, keeping images.
pub fn user_content_parts(content: Option<&Json>) -> (r: Vec<Json>)
    ensures
        jv_seq(r@) == user_parts(opt_jv(content)),
{
    match content {
        Some(Json::Array(parts)) => {
            proof {
                lemma_jv_seq(parts@);
            }
            let mut out: Vec<Json> = Vec::new();
            let mut i: usize = 0;
            while i < parts.len()
                invariant
                    i <= parts.len(),
                    jv_seq(out@) == parts_input(jv_seq(parts@).take(i as int)),
                    jv_seq(parts@).len() == parts@.len(),
                    forall|k: int| 0 <= k < parts@.len() ==> #[trigger] jv_seq(parts@)[k] == jv(parts@[k]),
                decreases parts.len() - i,
            {
                let ghost t = jv_seq(parts@).take(i + 1);
                assert(t.drop_last() =~= jv_seq(parts@).take(i as int));
                assert(t.last() == jv(parts@[i as int]));
                match part_to_input(&parts[i]) {
                    Some(p) => {
                        proof {
                            lemma_jv_seq_push(out@, p);
                        }
                        out.push(p);
                    },
                    None => {},
                }
                i = i + 1;
            }
            assert(jv_seq(parts@).take(parts@.len() as int) =~= jv_seq(parts@));
            out
        },
        _ => {
            let text = content_to_text(content);
            let mut out: Vec<Json> = Vec::new();
            let p = input_text(text.as_str());
            proof {
                lemma_jv_seq_push(out@, p);
            }
            out.push(p);
            proof {
                assert(jv_seq(Seq::<Json>::empty()) =~= Seq::<JsonV>::empty());
            }
            out
        },
    }
}

pub open spec fn empty_object_schema() -> JsonV {
    JsonV::Object(seq![("type"@, sv("object")), ("properties"@, JsonV::Object(Seq::empty()))])
}

/// A tool declaration in the Responses shape, from either the nested Chat
/// Completions form or the already-flat one; `None` when it has no name.
pub open spec fn tool_decl(tool: JsonV) -> Option<JsonV> {
    let inner = match jget(tool, "function"@) {
        Some(f) => f,
        None => tool,
    };
    match jstr(jget(inner, "name"@)) {
        Some(name) => Some(
            JsonV::Object(
                seq![
                    ("type"@, sv("function")),
                    ("name"@, JsonV::Str(name)),
                    ("description"@, JsonV::Str(
                        match jstr(jget(inner, "description"@)) {
                            Some(d) => d,
                            None => Seq::empty(),
                        },
                    )),
                    ("parameters"@, match jget(inner, "parameters"@) {
                        Some(p) => p,
                        None => empty_object_schema(),
                    }),
                ],
            ),
        ),
        None => None,
    }
}

/// Normalizes a tool declaration into the Responses shape.
pub fn tool_to_responses(tool: &Json) -> (r: Option<Json>)
    ensures
        match r {
            Some(j) => tool_decl(tool@) == Some(j@),
            None => tool_decl(tool@) is None,
        },
{
    let inner = match tool.get("function") {
        Some(f) => f,
        None => tool,
    };
    let name = match inner.get("name") {
        Some(n) => match n.as_str() {
            Some(s) => s,
            None => return None,
        },
        None => return None,
    };
    let description = match inner.get("description") {
        Some(d) => match d.as_str() {
            Some(s) => s,
            None => "",
        },
        None => "",
    };
    let parameters = match inner.get("parameters") {
        Some(p) => clone_json(p),
        None => obj2("type", Json::string("object"), "properties", empty_object()),
    };
    proof {
        reveal_strlit("");
        assert(""@ =~= Seq::<char>::empty());
        let spec_inner = match jget(tool@, "function"@) {
            Some(f) => f,
            None => tool@,
        };
        assert(spec_inner == inner@);
        assert(jstr(jget(spec_inner, "name"@)) == Some(name@));
        assert(description@ == match jstr(jget(spec_inner, "description"@)) {
            Some(d) => d,
            None => Seq::<char>::empty(),
        });
        assert(parameters@ == match jget(spec_inner, "parameters"@) {
            Some(p) => p,
            None => empty_object_schema(),
        });
    }
    let r = obj4(
        "type",
        Json::string("function"),
        "name",
        Json::string(name),
        "description",
        Json::string(description),
        "parameters",
        parameters,
    );
    assert(r@ == JsonV::Object(
        seq![
            ("type"@, sv("function")),
            ("name"@, JsonV::Str(name@)),
            ("description"@, JsonV::Str(description@)),
            ("parameters"@, parameters@),
        ],
    ));
    proof {
        let spec_inner = match jget(tool@, "function"@) {
            Some(f) => f,
            None => tool@,
        };
        let v = tool_decl(tool@);
        assert(v is Some);
        let fs = v->0->Object_0;
        assert(fs[0] == ("type"@, sv("function")));
        assert(fs[1] == ("name"@, JsonV::Str(name@)));
        assert(fs[2] == ("description"@, JsonV::Str(description@)));
        assert(fs[3] == ("parameters"@, parameters@));
        assert(fs.len() == 4);
        assert(fs =~= seq![
            ("type"@, sv("function")),
            ("name"@, JsonV::Str(name@)),
            ("description"@, JsonV::Str(description@)),
            ("parameters"@, parameters@),
        ]);
    }
    Some(r)
}

/// How the client's `tool_choice` reads in the Responses shape: a string as
/// it is, an object naming a function as `{type:"function", name}`, and
/// `"auto"` for anything else.
pub open spec fn choice_v(choice: JsonV) -> JsonV {
    match choice {
        JsonV::Str(_) => choice,
        JsonV::Object(_) => {
            let from_function = match jget(choice, "function"@) {
                Some(f) => jget(f, "name"@),
                None => None,
            };
            let named = match from_function {
                Some(n) => Some(n),
                None => jget(choice, "name"@),
            };
            match jstr(named) {
                Some(name) => JsonV::Object(seq![("type"@, sv("function")), ("name"@, JsonV::Str(name))]),
                None => sv("auto"),
            }
        },
        _ => sv("auto"),
    }
}

pub fn tool_choice_to_responses(choice: &Json) -> (r: Json)
    ensures
        r@ == choice_v(choice@),
{
    match choice {
        Json::Str(_) => clone_json(choice),
        Json::Object(_) => {
            let from_function = match choice.get("function") {
                Some(f) => f.get("name"),
                None => None,
            };
            let named = match from_function {
                Some(n) => Some(n),
                None => choice.get("name"),
            };
            let name = match named {
                Some(n) => n.as_str(),
                None => None,
            };
            match name {
                Some(n) => obj2("type", Json::string("function"), "name", Json::string(n)),
                None => Json::string("auto"),
            }
        },
        _ => Json::string("auto"),
    }
}

} // verus!

verus! {

pub open spec fn call_item_v(c: ChatToolCall) -> JsonV {
    JsonV::Object(
        seq![
            ("type"@, sv("function_call")),
            ("call_id"@, JsonV::Str(c.id@)),
            ("name"@, JsonV::Str(c.function.name@)),
            ("arguments"@, JsonV::Str(c.function.arguments@)),
        ],
    )
}

pub open spec fn calls_of(m: ChatMessage) -> Seq<ChatToolCall> {
    match m.tool_calls {
        Some(v) => v@,
        None => Seq::empty(),
    }
}

/// The Responses input items one Chat Completions message becomes. An
/// assistant turn replays its text and then each tool call it made, so that
/// the tool results that follow refer to calls the model has a record of.
pub open spec fn msg_items(m: ChatMessage) -> Seq<JsonV> {
    let role = m.role@;
    let text = content_text(ojv(m.content));
    if role == "user"@ {
        seq![
            JsonV::Object(
                seq![
                    ("type"@, sv("message")),
                    ("role"@, sv("user")),
                    ("content"@, JsonV::Array(user_parts(ojv(m.content)))),
                ],
            ),
        ]
    } else if role == "assistant"@ {
        (if text.len() > 0 {
            seq![
                JsonV::Object(
                    seq![
                        ("type"@, sv("message")),
                        ("role"@, sv("assistant")),
                        ("content"@, JsonV::Array(
                            seq![JsonV::Object(seq![("type"@, sv("output_text")), ("text"@, JsonV::Str(text))])],
                        )),
                    ],
                ),
            ]
        } else {
            Seq::empty()
        }) + calls_of(m).map_values(|c: ChatToolCall| call_item_v(c))
    } else if role == "tool"@ || role == "function"@ {
        seq![
            JsonV::Object(
                seq![
                    ("type"@, sv("function_call_output")),
                    ("call_id"@, JsonV::Str(
                        match m.tool_call_id {
                            Some(id) => id@,
                            None => Seq::empty(),
                        },
                    )),
                    ("output"@, JsonV::Str(text)),
                ],
            ),
        ]
    } else {
        Seq::empty()
    }
}

/// Every message's input items, in order.
pub open spec fn all_items(msgs: Seq<ChatMessage>) -> Seq<JsonV>
    decreases msgs.len(),
{
    if msgs.len() == 0 {
        Seq::empty()
    } else {
        all_items(msgs.drop_last()) + msg_items(msgs.last())
    }
}

/// The non-empty texts of the system and developer messages, in order.
pub open spec fn instr_parts(msgs: Seq<ChatMessage>) -> Seq<Seq<char>>
    decreases msgs.len(),
{
    if msgs.len() == 0 {
        Seq::empty()
    } else {
        let m = msgs.last();
        let t = content_text(ojv(m.content));
        let rest = instr_parts(msgs.drop_last());
        if (m.role@ == "system"@ || m.role@ == "developer"@) && t.len() > 0 {
            rest.push(t)
        } else {
            rest
        }
    }
}

/// The parts joined with `sep` between each two.
pub open spec fn join(parts: Seq<Seq<char>>, sep: Seq<char>) -> Seq<char>
    decreases parts.len(),
{
    if parts.len() == 0 {
        Seq::empty()
    } else if parts.len() == 1 {
        parts[0]
    } else {
        join(parts.drop_last(), sep) + sep + parts.last()
    }
}

/// The tool declarations that have a name, in the Responses shape.
pub open spec fn tools_v(tools: Seq<JsonV>) -> Seq<JsonV>
    decreases tools.len(),
{
    if tools.len() == 0 {
        Seq::empty()
    } else {
        let rest = tools_v(tools.drop_last());
        match tool_decl(tools.last()) {
            Some(t) => rest.push(t),
            None => rest,
        }
    }
}

fn call_item(c: &ChatToolCall) -> (r: Json)
    ensures
        r@ == call_item_v(*c),
{
    let r = obj4(
        "type",
        Json::string("function_call"),
        "call_id",
        Json::string(c.id.as_str()),
        "name",
        Json::string(c.function.name.as_str()),
        "arguments",
        Json::string(c.function.arguments.as_str()),
    );
    assert(r@->Object_0 =~= call_item_v(*c)->Object_0);
    r
}

/// The input items for one message.
pub fn message_items(m: &ChatMessage) -> (r: Vec<Json>)
    ensures
        jv_seq(r@) == msg_items(*m),
{
    let role = m.role.as_str();
    let mut out: Vec<Json> = Vec::new();
    assert(jv_seq(out@) =~= Seq::<JsonV>::empty());
    if str_eq(role, "user") {
        let parts = user_content_parts(m.content.as_ref());
        let item = obj3("type", Json::string("message"), "role", Json::string("user"), "content", array_of(parts));
        proof {
            lemma_jv_seq_push(out@, item);
            assert(item@->Object_0 =~= msg_items(*m)[0]->Object_0);
        }
        out.push(item);
        assert(jv_seq(out@) =~= msg_items(*m));
    } else if str_eq(role, "assistant") {
        let text = content_to_text(m.content.as_ref());
        if !text.as_str().is_empty() {
            let part = obj2("type", Json::string("output_text"), "text", Json::string(text.as_str()));
            let mut content: Vec<Json> = Vec::new();
            proof {
                lemma_jv_seq_push(content@, part);
            }
            content.push(part);
            let item = obj3("type", Json::string("message"), "role", Json::string("assistant"), "content", array_of(content));
            proof {
                lemma_jv_seq_push(out@, item);
                assert(part@->Object_0 =~= seq![("type"@, sv("output_text")), ("text"@, JsonV::Str(text@))]);
                assert(jv_seq(content@) =~= seq![part@]);
                assert(item@->Object_0 =~= seq![
                    ("type"@, sv("message")),
                    ("role"@, sv("assistant")),
                    ("content"@, JsonV::Array(seq![part@])),
                ]);
            }
            out.push(item);
        }
        let ghost head = jv_seq(out@);
        assert(head == (if text@.len() > 0 {
            seq![
                JsonV::Object(
                    seq![
                        ("type"@, sv("message")),
                        ("role"@, sv("assistant")),
                        ("content"@, JsonV::Array(
                            seq![JsonV::Object(seq![("type"@, sv("output_text")), ("text"@, JsonV::Str(text@))])],
                        )),
                    ],
                ),
            ]
        } else {
            Seq::<JsonV>::empty()
        }));
        let ghost calls = calls_of(*m).map_values(|c: ChatToolCall| call_item_v(c));
        match &m.tool_calls {
            Some(tool_calls) => {
                let mut i: usize = 0;
                while i < tool_calls.len()
                    invariant
                        i <= tool_calls.len(),
                        calls == tool_calls@.map_values(|c: ChatToolCall| call_item_v(c)),
                        jv_seq(out@) == head + calls.take(i as int),
                    decreases tool_calls.len() - i,
                {
                    let item = call_item(&tool_calls[i]);
                    proof {
                        lemma_jv_seq_push(out@, item);
                        assert(head + calls.take(i + 1) =~= (head + calls.take(i as int)).push(item@));
                    }
                    out.push(item);
                    i = i + 1;
                }
                assert(calls.take(tool_calls@.len() as int) =~= calls);
            },
            None => {
                assert(calls =~= Seq::<JsonV>::empty());
                assert(head + calls =~= head);
            },
        }
    } else if str_eq(role, "tool") || str_eq(role, "function") {
        let call_id = match &m.tool_call_id {
            Some(id) => Json::string(id.as_str()),
            None => Json::string(""),
        };
        let text = content_to_text(m.content.as_ref());
        let item = obj3("type", Json::string("function_call_output"), "call_id", call_id, "output", Json::string(text.as_str()));
        proof {
            reveal_strlit("");
            assert(""@ =~= Seq::<char>::empty());
            lemma_jv_seq_push(out@, item);
            assert(item@->Object_0 =~= msg_items(*m)[0]->Object_0);
        }
        out.push(item);
        assert(jv_seq(out@) =~= msg_items(*m));
    }
    out
}

} // verus!

verus! {

pub struct TranslatedRequest {
    pub body: Json,
    pub model: String,
    pub stream: bool,
    pub include_usage: bool,
}

pub open spec fn tools_list(req: ChatRequest) -> Seq<JsonV> {
    match req.tools {
        Some(v) => tools_v(jv_seq(v@)),
        None => Seq::empty(),
    }
}

pub open spec fn instructions_v(req: ChatRequest, config: Config) -> Seq<char> {
    let parts = instr_parts(req.messages@);
    if parts.len() == 0 {
        config.default_instructions@
    } else {
        join(parts, "\n\n"@)
    }
}

pub open spec fn max_output_v(req: ChatRequest) -> Option<u64> {
    match req.max_completion_tokens {
        Some(n) => Some(n),
        None => req.max_tokens,
    }
}

pub open spec fn opt_string(o: Option<String>) -> Option<Seq<char>> {
    match o {
        Some(s) => Some(s@),
        None => None,
    }
}

pub open spec fn choice_or_auto(req: ChatRequest) -> JsonV {
    match req.tool_choice {
        Some(c) => choice_v(c@),
        None => sv("auto"),
    }
}

/// The tool fields: present only when some tool was declared.
pub open spec fn tools_part(req: ChatRequest) -> Seq<(Seq<char>, JsonV)> {
    let tools = tools_list(req);
    if tools.len() > 0 {
        seq![
            ("tools"@, JsonV::Array(tools)),
            ("tool_choice"@, choice_or_auto(req)),
            ("parallel_tool_calls"@, JsonV::Bool(
                match req.parallel_tool_calls {
                    Some(b) => b,
                    None => true,
                },
            )),
        ]
    } else {
        Seq::empty()
    }
}

pub open spec fn reasoning_part(req: ChatRequest) -> Seq<(Seq<char>, JsonV)> {
    match req.reasoning_effort {
        Some(e) => seq![("reasoning"@, JsonV::Object(seq![("effort"@, JsonV::Str(e@))]))],
        None => Seq::empty(),
    }
}

pub open spec fn max_part(req: ChatRequest) -> Seq<(Seq<char>, JsonV)> {
    match max_output_v(req) {
        Some(n) => seq![("max_output_tokens"@, JsonV::PosInt(n))],
        None => Seq::empty(),
    }
}

pub open spec fn base_part(req: ChatRequest, config: Config) -> Seq<(Seq<char>, JsonV)> {
    seq![
        ("model"@, JsonV::Str(config.resolved_model(opt_string(req.model)))),
        ("store"@, JsonV::Bool(false)),
        ("stream"@, JsonV::Bool(true)),
        ("instructions"@, JsonV::Str(instructions_v(req, config))),
        ("input"@, JsonV::Array(all_items(req.messages@))),
    ]
}

/// The upstream Responses body for a Chat Completions request: the model,
/// `store: false`, `stream: true`, the instructions and the input items,
/// then the tool fields when tools were declared, the reasoning effort and
/// the output limit when given, and nothing else.
pub open spec fn body_v(req: ChatRequest, config: Config) -> JsonV {
    JsonV::Object(base_part(req, config) + tools_part(req) + reasoning_part(req) + max_part(req))
}

fn all_message_items(msgs: &Vec<ChatMessage>) -> (r: Vec<Json>)
    ensures
        jv_seq(r@) == all_items(msgs@),
{
    let mut out: Vec<Json> = Vec::new();
    let mut i: usize = 0;
    assert(jv_seq(out@) =~= Seq::<JsonV>::empty());
    while i < msgs.len()
        invariant
            i <= msgs.len(),
            jv_seq(out@) == all_items(msgs@.take(i as int)),
        decreases msgs.len() - i,
    {
        let items = message_items(&msgs[i]);
        append_all(&mut out, &items);
        assert(msgs@.take(i + 1).drop_last() =~= msgs@.take(i as int));
        assert(msgs@.take(i + 1).last() == msgs@[i as int]);
        i = i + 1;
    }
    assert(msgs@.take(msgs.len() as int) =~= msgs@);
    out
}

fn instructions(msgs: &Vec<ChatMessage>, fallback: &String) -> (r: String)
    ensures
        r@ == (if instr_parts(msgs@).len() == 0 {
            fallback@
        } else {
            join(instr_parts(msgs@), "\n\n"@)
        }),
{
    let mut parts: Vec<String> = Vec::new();
    let mut i: usize = 0;
    while i < msgs.len()
        invariant
            i <= msgs.len(),
            crate::config::views(parts@) == instr_parts(msgs@.take(i as int)),
        decreases msgs.len() - i,
    {
        let m = &msgs[i];
        assert(msgs@.take(i + 1).drop_last() =~= msgs@.take(i as int));
        assert(msgs@.take(i + 1).last() == msgs@[i as int]);
        let role = m.role.as_str();
        if str_eq(role, "system") || str_eq(role, "developer") {
            let t = content_to_text(m.content.as_ref());
            if !t.as_str().is_empty() {
                proof {
                    assert(crate::config::views(parts@.push(t)) =~= crate::config::views(parts@).push(t@));
                }
                parts.push(t);
            }
        }
        i = i + 1;
    }
    assert(msgs@.take(msgs.len() as int) =~= msgs@);
    if parts.len() == 0 {
        return fallback.clone();
    }
    let mut out = parts[0].clone();
    let mut j: usize = 1;
    assert(crate::config::views(parts@).take(1) =~= seq![parts@[0]@]);
    while j < parts.len()
        invariant
            1 <= j <= parts.len(),
            out@ == join(crate::config::views(parts@).take(j as int), "\n\n"@),
        decreases parts.len() - j,
    {
        let ghost t = crate::config::views(parts@).take(j + 1);
        assert(t.drop_last() =~= crate::config::views(parts@).take(j as int));
        assert(t.last() == parts@[j as int]@);
        out.append("\n\n");
        out.append(parts[j].as_str());
        j = j + 1;
    }
    assert(crate::config::views(parts@).take(parts.len() as int) =~= crate::config::views(parts@));
    out
}

fn tool_decls(tools: &Vec<Json>) -> (r: Vec<Json>)
    ensures
        jv_seq(r@) == tools_v(jv_seq(tools@)),
{
    proof {
        lemma_jv_seq(tools@);
    }
    let mut out: Vec<Json> = Vec::new();
    let mut i: usize = 0;
    assert(jv_seq(out@) =~= Seq::<JsonV>::empty());
    while i < tools.len()
        invariant
            i <= tools.len(),
            jv_seq(out@) == tools_v(jv_seq(tools@).take(i as int)),
            jv_seq(tools@).len() == tools@.len(),
            forall|k: int| 0 <= k < tools@.len() ==> #[trigger] jv_seq(tools@)[k] == jv(tools@[k]),
        decreases tools.len() - i,
    {
        let ghost t = jv_seq(tools@).take(i + 1);
        assert(t.drop_last() =~= jv_seq(tools@).take(i as int));
        assert(t.last() == jv(tools@[i as int]));
        match tool_to_responses(&tools[i]) {
            Some(d) => {
                proof {
                    lemma_jv_seq_push(out@, d);
                }
                out.push(d);
            },
            None => {},
        }
        i = i + 1;
    }
    assert(jv_seq(tools@).take(tools@.len() as int) =~= jv_seq(tools@));
    out
}

fn push_field(fs: &mut Vec<(String, Json)>, k: &str, v: Json)
    ensures
        jv_fields(final(fs)@) == jv_fields(old(fs)@).push((k@, v@)),
{
    let f = field(k, v);
    proof {
        lemma_jv_fields_push(fs@, f);
    }
    fs.push(f);
}

/// Builds the upstream Responses body for a Chat Completions request. The
/// upstream body always streams, whatever the client asked for; sampling
/// knobs such as `temperature` are not carried over, because the backend
/// rejects them.
pub fn chat_to_responses(req: &ChatRequest, config: &Config) -> (r: TranslatedRequest)
    ensures
        r.body@ == body_v(*req, *config),
        r.model@ == config.resolved_model(opt_string(req.model)),
        r.stream == match req.stream {
            Some(b) => b,
            None => false,
        },
        r.include_usage == match req.stream_options {
            Some(o) => o.include_usage,
            None => false,
        },
{
    let model = config.resolve_model(match &req.model {
        Some(m) => Some(m.as_str()),
        None => None,
    });
    let input = all_message_items(&req.messages);
    let instr = instructions(&req.messages, &config.default_instructions);
    let tools = match &req.tools {
        Some(t) => tool_decls(t),
        None => {
            let v: Vec<Json> = Vec::new();
            assert(jv_seq(v@) =~= Seq::<JsonV>::empty());
            v
        },
    };
    let mut fs: Vec<(String, Json)> = Vec::new();
    assert(jv_fields(fs@) =~= Seq::<(Seq<char>, JsonV)>::empty());
    push_field(&mut fs, "model", Json::string(model.as_str()));
    push_field(&mut fs, "store", Json::Bool(false));
    push_field(&mut fs, "stream", Json::Bool(true));
    push_field(&mut fs, "instructions", Json::string(instr.as_str()));
    push_field(&mut fs, "input", array_of(input));
    let ghost base = jv_fields(fs@);
    if tools.len() > 0 {
        let choice = match &req.tool_choice {
            Some(c) => tool_choice_to_responses(c),
            None => Json::string("auto"),
        };
        let parallel = match req.parallel_tool_calls {
            Some(b) => b,
            None => true,
        };
        proof {
            lemma_jv_seq(tools@);
        }
        push_field(&mut fs, "tools", array_of(tools));
        push_field(&mut fs, "tool_choice", choice);
        push_field(&mut fs, "parallel_tool_calls", Json::Bool(parallel));
    }
    let ghost with_tools = jv_fields(fs@);
    match &req.reasoning_effort {
        Some(effort) => push_field(&mut fs, "reasoning", obj1("effort", Json::string(effort.as_str()))),
        None => {},
    }
    let ghost with_reasoning = jv_fields(fs@);
    let max = match req.max_completion_tokens {
        Some(n) => Some(n),
        None => req.max_tokens,
    };
    match max {
        Some(n) => push_field(&mut fs, "max_output_tokens", Json::PosInt(n)),
        None => {},
    }
    let body = Json::Object(fs);
    proof {
        assert(jv_seq(tools@) == tools_list(*req));
        assert(base =~= base_part(*req, *config));
        assert(with_tools =~= base_part(*req, *config) + tools_part(*req));
        assert(with_reasoning =~= base_part(*req, *config) + tools_part(*req) + reasoning_part(*req));
        assert(jv_fields(fs@) =~= base_part(*req, *config) + tools_part(*req) + reasoning_part(*req) + max_part(*req));
    }
    TranslatedRequest {
        body,
        model,
        stream: match req.stream {
            Some(b) => b,
            None => false,
        },
        include_usage: match &req.stream_options {
            Some(o) => o.include_usage,
            None => false,
        },
    }
}

} // verus!

verus! {

// --- outbound: assembling a Chat Completions message ----------------------

/// An assistant message rebuilt from the upstream's finished output items.
pub struct AssembledMessage {
    pub content: String,
    pub reasoning: String,
    pub tool_calls: Vec<ChatToolCall>,
}

pub open spec fn type_is(item: JsonV, t: Seq<char>) -> bool {
    jstr(jget(item, "type"@)) == Some(t)
}

/// The texts of the parts listed under `key`, when that is an array.
pub open spec fn listed_texts(item: JsonV, key: Seq<char>) -> Seq<char> {
    match jarr(jget(item, key)) {
        Some(parts) => texts_of(parts),
        None => Seq::empty(),
    }
}

pub open spec fn item_text(item: JsonV) -> Seq<char> {
    if type_is(item, "message"@) {
        listed_texts(item, "content"@)
    } else {
        Seq::empty()
    }
}

pub open spec fn item_reasoning(item: JsonV) -> Seq<char> {
    if type_is(item, "reasoning"@) {
        listed_texts(item, "summary"@)
    } else {
        Seq::empty()
    }
}

pub open spec fn str_or(v: Option<JsonV>, d: Seq<char>) -> Seq<char> {
    match jstr(v) {
        Some(s) => s,
        None => d,
    }
}

/// The tool call a `function_call` item stands for: its call id, name and
/// arguments, with `{}` for missing arguments so that clients can always
/// parse them.
pub open spec fn item_call(item: JsonV) -> Option<(Seq<char>, Seq<char>, Seq<char>)> {
    if type_is(item, "function_call"@) {
        Some(
            (
                str_or(jget(item, "call_id"@), Seq::empty()),
                str_or(jget(item, "name"@), Seq::empty()),
                str_or(jget(item, "arguments"@), "{}"@),
            ),
        )
    } else {
        None
    }
}

pub open spec fn assembled_text(items: Seq<JsonV>) -> Seq<char>
    decreases items.len(),
{
    if items.len() == 0 {
        Seq::empty()
    } else {
        assembled_text(items.drop_last()) + item_text(items.last())
    }
}

pub open spec fn assembled_reasoning(items: Seq<JsonV>) -> Seq<char>
    decreases items.len(),
{
    if items.len() == 0 {
        Seq::empty()
    } else {
        assembled_reasoning(items.drop_last()) + item_reasoning(items.last())
    }
}

pub open spec fn assembled_calls(items: Seq<JsonV>) -> Seq<(Seq<char>, Seq<char>, Seq<char>)>
    decreases items.len(),
{
    if items.len() == 0 {
        Seq::empty()
    } else {
        let rest = assembled_calls(items.drop_last());
        match item_call(items.last()) {
            Some(c) => rest.push(c),
            None => rest,
        }
    }
}

pub open spec fn call_v(c: ChatToolCall) -> (Seq<char>, Seq<char>, Seq<char>) {
    (c.id@, c.function.name@, c.function.arguments@)
}

pub open spec fn calls_v(cs: Seq<ChatToolCall>) -> Seq<(Seq<char>, Seq<char>, Seq<char>)> {
    cs.map_values(|c: ChatToolCall| call_v(c))
}

/// The texts of the parts under `key`, concatenated.
fn texts_under(item: &Json, key: &str) -> (r: String)
    ensures
        r@ == listed_texts(item@, key@),
{
    match item.get(key) {
        Some(v) => match v {
            Json::Array(_) => content_to_text(Some(v)),
            _ => String::new(),
        },
        None => String::new(),
    }
}

fn str_field_or(item: &Json, key: &str, d: &str) -> (r: String)
    ensures
        r@ == str_or(jget(item@, key@), d@),
{
    match item.get(key) {
        Some(v) => match v.as_str() {
            Some(s) => s.to_string(),
            None => d.to_string(),
        },
        None => d.to_string(),
    }
}

fn is_type(item: &Json, t: &str) -> (r: bool)
    ensures
        r == type_is(item@, t@),
{
    match item.get("type") {
        Some(v) => match v.as_str() {
            Some(s) => str_eq(s, t),
            None => false,
        },
        None => false,
    }
}

impl AssembledMessage {
    /// Rebuilds the assistant message from the upstream's completed output
    /// items: message text and reasoning summaries concatenated in order,
    /// and one tool call per `function_call` item.
    pub fn from_output_items(items: &[Json]) -> (r: Self)
        ensures
            r.content@ == assembled_text(jv_seq(items@)),
            r.reasoning@ == assembled_reasoning(jv_seq(items@)),
            calls_v(r.tool_calls@) == assembled_calls(jv_seq(items@)),
            forall|k: int| 0 <= k < r.tool_calls@.len() ==> #[trigger] r.tool_calls@[k].kind@ == "function"@,
    {
        proof {
            lemma_jv_seq(items@);
        }
        let mut content = String::new();
        let mut reasoning = String::new();
        let mut calls: Vec<ChatToolCall> = Vec::new();
        let mut i: usize = 0;
        assert(calls_v(calls@) =~= Seq::empty());
        while i < items.len()
            invariant
                i <= items.len(),
                content@ == assembled_text(jv_seq(items@).take(i as int)),
                reasoning@ == assembled_reasoning(jv_seq(items@).take(i as int)),
                calls_v(calls@) == assembled_calls(jv_seq(items@).take(i as int)),
                forall|k: int| 0 <= k < calls@.len() ==> #[trigger] calls@[k].kind@ == "function"@,
                jv_seq(items@).len() == items@.len(),
                forall|k: int| 0 <= k < items@.len() ==> #[trigger] jv_seq(items@)[k] == jv(items@[k]),
            decreases items.len() - i,
        {
            let item = &items[i];
            let ghost t = jv_seq(items@).take(i + 1);
            assert(t.drop_last() =~= jv_seq(items@).take(i as int));
            assert(t.last() == item@);
            if is_type(item, "function_call") {
                let c = ChatToolCall {
                    id: str_field_or(item, "call_id", ""),
                    kind: "function".to_string(),
                    function: ChatFunctionCall {
                        name: str_field_or(item, "name", ""),
                        arguments: str_field_or(item, "arguments", "{}"),
                    },
                };
                proof {
                    reveal_strlit("");
                    assert(""@ =~= Seq::<char>::empty());
                    assert(calls_v(calls@.push(c)) =~= calls_v(calls@).push(call_v(c)));
                }
                calls.push(c);
                assert(!type_is(item@, "message"@) && !type_is(item@, "reasoning"@)) by {
                    reveal_strlit("function_call");
                    reveal_strlit("message");
                    reveal_strlit("reasoning");
                    assert("function_call"@.len() != "message"@.len());
                    assert("function_call"@.len() != "reasoning"@.len());
                }
                assert(content@ + item_text(item@) =~= content@);
                assert(reasoning@ + item_reasoning(item@) =~= reasoning@);
            } else if is_type(item, "message") {
                let t = texts_under(item, "content");
                content.append(t.as_str());
                assert(!type_is(item@, "reasoning"@)) by {
                    reveal_strlit("message");
                    reveal_strlit("reasoning");
                    assert("message"@.len() != "reasoning"@.len());
                }
                assert(reasoning@ + item_reasoning(item@) =~= reasoning@);
            } else if is_type(item, "reasoning") {
                let t = texts_under(item, "summary");
                reasoning.append(t.as_str());
                assert(content@ + item_text(item@) =~= content@);
            } else {
                assert(content@ + item_text(item@) =~= content@);
                assert(reasoning@ + item_reasoning(item@) =~= reasoning@);
            }
            i = i + 1;
        }
        assert(jv_seq(items@).take(items@.len() as int) =~= jv_seq(items@));
        AssembledMessage { content, reasoning, tool_calls: calls }
    }

    /// `tool_calls` when the model called a tool, `stop` otherwise.
    pub fn finish_reason(&self) -> (r: &'static str)
        ensures
            r@ == (if self.tool_calls@.len() == 0 {
                "stop"@
            } else {
                "tool_calls"@
            }),
    {
        if self.tool_calls.len() == 0 {
            "stop"
        } else {
            "tool_calls"
        }
    }
}

} // verus!

verus! {

/// A tool call as Chat Completions writes it in `message.tool_calls[]`.
pub open spec fn call_json_v(c: ChatToolCall) -> JsonV {
    JsonV::Object(
        seq![
            ("id"@, JsonV::Str(c.id@)),
            ("type"@, JsonV::Str(c.kind@)),
            ("function"@, JsonV::Object(
                seq![("name"@, JsonV::Str(c.function.name@)), ("arguments"@, JsonV::Str(c.function.arguments@))],
            )),
        ],
    )
}

/// The assistant message: `content` is null when the model only called
/// tools, the reasoning and tool calls are present only when there are any.
pub open spec fn message_json_v(m: AssembledMessage) -> JsonV {
    let calls = m.tool_calls@;
    JsonV::Object(
        seq![
            ("role"@, sv("assistant")),
            ("content"@, if m.content@.len() == 0 && calls.len() > 0 {
                JsonV::Null
            } else {
                JsonV::Str(m.content@)
            }),
        ] + (if m.reasoning@.len() > 0 {
            seq![("reasoning_content"@, JsonV::Str(m.reasoning@))]
        } else {
            Seq::empty()
        }) + (if calls.len() > 0 {
            seq![("tool_calls"@, JsonV::Array(calls.map_values(|c: ChatToolCall| call_json_v(c))))]
        } else {
            Seq::empty()
        }),
    )
}

pub fn tool_call_json(c: &ChatToolCall) -> (r: Json)
    ensures
        r@ == call_json_v(*c),
{
    let f = obj2("name", Json::string(c.function.name.as_str()), "arguments", Json::string(c.function.arguments.as_str()));
    let r = obj3("id", Json::string(c.id.as_str()), "type", Json::string(c.kind.as_str()), "function", f);
    assert(f@->Object_0 =~= seq![
        ("name"@, JsonV::Str(c.function.name@)),
        ("arguments"@, JsonV::Str(c.function.arguments@)),
    ]);
    assert(r@->Object_0 =~= call_json_v(*c)->Object_0);
    r
}

impl AssembledMessage {
    pub fn to_message_json(&self) -> (r: Json)
        ensures
            r@ == message_json_v(*self),
    {
        let calls_empty = self.tool_calls.len() == 0;
        let content = if self.content.as_str().is_empty() && !calls_empty {
            Json::Null
        } else {
            Json::string(self.content.as_str())
        };
        let mut fs: Vec<(String, Json)> = Vec::new();
        assert(jv_fields(fs@) =~= Seq::<(Seq<char>, JsonV)>::empty());
        push_field(&mut fs, "role", Json::string("assistant"));
        push_field(&mut fs, "content", content);
        let ghost base = jv_fields(fs@);
        if !self.reasoning.as_str().is_empty() {
            push_field(&mut fs, "reasoning_content", Json::string(self.reasoning.as_str()));
        }
        let ghost with_reasoning = jv_fields(fs@);
        if !calls_empty {
            let mut arr: Vec<Json> = Vec::new();
            let ghost want = self.tool_calls@.map_values(|c: ChatToolCall| call_json_v(c));
            let mut i: usize = 0;
            assert(jv_seq(arr@) =~= Seq::<JsonV>::empty());
            while i < self.tool_calls.len()
                invariant
                    i <= self.tool_calls.len(),
                    want == self.tool_calls@.map_values(|c: ChatToolCall| call_json_v(c)),
                    jv_seq(arr@) == want.take(i as int),
                decreases self.tool_calls.len() - i,
            {
                let j = tool_call_json(&self.tool_calls[i]);
                proof {
                    crate::json::lemma_jv_seq_push(arr@, j);
                    assert(want.take(i + 1) =~= want.take(i as int).push(j@));
                }
                arr.push(j);
                i = i + 1;
            }
            assert(want.take(self.tool_calls@.len() as int) =~= want);
            push_field(&mut fs, "tool_calls", array_of(arr));
        }
        proof {
            let m = *self;
            let calls = m.tool_calls@;
            let b = seq![
                ("role"@, sv("assistant")),
                ("content"@, if m.content@.len() == 0 && calls.len() > 0 {
                    JsonV::Null
                } else {
                    JsonV::Str(m.content@)
                }),
            ];
            assert(base =~= b);
            let rp = if m.reasoning@.len() > 0 {
                seq![("reasoning_content"@, JsonV::Str(m.reasoning@))]
            } else {
                Seq::empty()
            };
            assert(with_reasoning =~= b + rp);
            let cp = if calls.len() > 0 {
                seq![("tool_calls"@, JsonV::Array(calls.map_values(|c: ChatToolCall| call_json_v(c))))]
            } else {
                Seq::empty()
            };
            assert(jv_fields(fs@) =~= b + rp + cp);
        }
        Json::Object(fs)
    }
}

/// The fields a Responses body is built from.
pub open spec fn responses_field(k: Seq<char>) -> bool {
    ||| k == "model"@
    ||| k == "store"@
    ||| k == "stream"@
    ||| k == "instructions"@
    ||| k == "input"@
    ||| k == "tools"@
    ||| k == "tool_choice"@
    ||| k == "parallel_tool_calls"@
    ||| k == "reasoning"@
    ||| k == "max_output_tokens"@
}

/// Only Responses fields go upstream: whatever else a Chat Completions
/// request carries, such as `temperature` or `top_p`, is dropped rather
/// than forwarded.
pub proof fn law_only_responses_fields_are_sent(req: ChatRequest, config: Config, key: Seq<char>)
    requires
        !responses_field(key),
    ensures
        jget(body_v(req, config), key) is None,
{
    let (b, t, r, m) = (base_part(req, config), tools_part(req), reasoning_part(req), max_part(req));
    let fs = b + t + r + m;
    assert forall|j: int| 0 <= j < fs.len() implies #[trigger] fs[j].0 != key by {
        if j < b.len() {
            assert(fs[j] == b[j]);
        } else if j < b.len() + t.len() {
            assert(fs[j] == t[j - b.len()]);
        } else if j < b.len() + t.len() + r.len() {
            assert(fs[j] == r[j - b.len() - t.len()]);
        } else {
            assert(fs[j] == m[j - b.len() - t.len() - r.len()]);
        }
    }
    lemma_field_of_absent(fs, key);
}

/// The body names the served model, is never stored, always streams,
/// carries the system and developer texts joined by a blank line (or the
/// configured default when there are none) as its instructions, and the
/// output limit exactly when the request gave one.
pub proof fn law_body_fields(req: ChatRequest, config: Config)
    ensures
        jget(body_v(req, config), "model"@) == Some(JsonV::Str(config.resolved_model(opt_string(req.model)))),
        jget(body_v(req, config), "store"@) == Some(JsonV::Bool(false)),
        jget(body_v(req, config), "stream"@) == Some(JsonV::Bool(true)),
        jget(body_v(req, config), "instructions"@) == Some(
            JsonV::Str(
                if instr_parts(req.messages@).len() == 0 {
                    config.default_instructions@
                } else {
                    join(instr_parts(req.messages@), "\n\n"@)
                },
            ),
        ),
        jget(body_v(req, config), "max_output_tokens"@) == match req.max_completion_tokens {
            Some(n) => Some(JsonV::PosInt(n)),
            None => match req.max_tokens {
                Some(n) => Some(JsonV::PosInt(n)),
                None => None,
            },
        },
{
    reveal_strlit("model");
    reveal_strlit("store");
    reveal_strlit("stream");
    reveal_strlit("instructions");
    reveal_strlit("input");
    reveal_strlit("tools");
    reveal_strlit("tool_choice");
    reveal_strlit("parallel_tool_calls");
    reveal_strlit("reasoning");
    reveal_strlit("max_output_tokens");
    let (b, t, r, m) = (base_part(req, config), tools_part(req), reasoning_part(req), max_part(req));
    let fs = b + t + r + m;
    assert(fs[0] == b[0] && fs[1] == b[1] && fs[2] == b[2] && fs[3] == b[3]);
    lemma_field_of_at(fs, "model"@, 0);
    assert("model"@[0] != "store"@[0]);
    lemma_field_of_at(fs, "store"@, 1);
    assert("model"@.len() == 5 && "store"@.len() == 5 && "stream"@.len() == 6 && "instructions"@.len() == 12);
    assert(fs[0].0 != "stream"@ && fs[1].0 != "stream"@);
    lemma_field_of_at(fs, "stream"@, 2);
    assert(fs[0].0 != "instructions"@ && fs[1].0 != "instructions"@ && fs[2].0 != "instructions"@);
    lemma_field_of_at(fs, "instructions"@, 3);
    assert("input"@.len() == 5 && "tools"@.len() == 5 && "tool_choice"@.len() == 11);
    assert("parallel_tool_calls"@.len() == 19 && "reasoning"@.len() == 9 && "max_output_tokens"@.len() == 17);
    let n = fs.len() - m.len();
    assert forall|j: int| 0 <= j < n implies #[trigger] fs[j].0 != "max_output_tokens"@ by {
        if j < b.len() {
            assert(fs[j] == b[j]);
        } else if j < b.len() + t.len() {
            assert(fs[j] == t[j - b.len()]);
        } else {
            assert(fs[j] == r[j - b.len() - t.len()]);
        }
    }
    if m.len() > 0 {
        assert(fs[n] == m[0]);
        lemma_field_of_at(fs, "max_output_tokens"@, n);
    } else {
        assert(fs.len() == n);
        lemma_field_of_absent(fs, "max_output_tokens"@);
    }
}

/// The assistant message always names its role; its `content` is null
/// exactly when the model wrote no text and called a tool, and it carries
/// `tool_calls` exactly when there are calls.
pub proof fn law_message_json_fields(m: AssembledMessage)
    ensures
        jget(message_json_v(m), "role"@) == Some(JsonV::Str("assistant"@)),
        jget(message_json_v(m), "content"@) == Some(
            if m.content@.len() == 0 && m.tool_calls@.len() > 0 {
                JsonV::Null
            } else {
                JsonV::Str(m.content@)
            },
        ),
        (jget(message_json_v(m), "tool_calls"@) is Some) == (m.tool_calls@.len() > 0),
{
    reveal_strlit("role");
    reveal_strlit("content");
    reveal_strlit("reasoning_content");
    reveal_strlit("tool_calls");
    assert("role"@.len() == 4 && "content"@.len() == 7 && "reasoning_content"@.len() == 17 && "tool_calls"@.len() == 10);
    let fs = message_json_v(m)->Object_0;
    lemma_field_of_at(fs, "role"@, 0);
    lemma_field_of_at(fs, "content"@, 1);
    if m.tool_calls@.len() > 0 {
        lemma_field_of_at(fs, "tool_calls"@, fs.len() - 1);
    } else {
        lemma_field_of_absent(fs, "tool_calls"@);
    }
}

/// A reasoning item contributes the texts of its `summary` parts, after
/// whatever the items before it contributed.
pub proof fn law_reasoning_is_read_from_the_summary(items: Seq<JsonV>, item: JsonV, parts: Seq<JsonV>)
    requires
        jget(item, "type"@) == Some(JsonV::Str("reasoning"@)),
        jget(item, "summary"@) == Some(JsonV::Array(parts)),
    ensures
        assembled_reasoning(items.push(item)) == assembled_reasoning(items) + texts_of(parts),
{
    assert(items.push(item).drop_last() =~= items);
}

/// A reasoning item whose summary is one part with text `t` adds exactly
/// `t` to the reasoning.
pub proof fn law_a_summary_part_is_reasoning(items: Seq<JsonV>, item: JsonV, part: JsonV, t: Seq<char>)
    requires
        jget(item, "type"@) == Some(JsonV::Str("reasoning"@)),
        jget(item, "summary"@) == Some(JsonV::Array(seq![part])),
        jget(part, "text"@) == Some(JsonV::Str(t)),
    ensures
        assembled_reasoning(items.push(item)) == assembled_reasoning(items) + t,
{
    law_reasoning_is_read_from_the_summary(items, item, seq![part]);
    let ps = seq![part];
    assert(ps.drop_last() =~= Seq::<JsonV>::empty());
    assert(ps.last() == part);
    assert(texts_of(ps.drop_last()) == Seq::<char>::empty());
    assert(texts_of(ps) =~= t);
}

/// The instruction texts among the first `k` messages when the only
/// instruction message is at `i`, with text `t`.
proof fn lemma_one_instruction(msgs: Seq<ChatMessage>, i: int, t: Seq<char>, k: int)
    requires
        0 <= i < msgs.len(),
        0 <= k <= msgs.len(),
        msgs[i].role@ == "system"@ || msgs[i].role@ == "developer"@,
        ojv(msgs[i].content) == Some(JsonV::Str(t)),
        t.len() > 0,
        forall|j: int| 0 <= j < msgs.len() && j != i ==> (#[trigger] msgs[j]).role@ != "system"@ && msgs[j].role@ != "developer"@,
    ensures
        instr_parts(msgs.take(k)) == if k > i { seq![t] } else { Seq::<Seq<char>>::empty() },
    decreases k,
{
    if k > 0 {
        lemma_one_instruction(msgs, i, t, k - 1);
        assert(msgs.take(k).drop_last() =~= msgs.take(k - 1));
        assert(msgs.take(k).last() == msgs[k - 1]);
        if k - 1 == i {
            assert(Seq::<Seq<char>>::empty().push(t) =~= seq![t]);
        }
    } else {
        assert(msgs.take(0) =~= Seq::<ChatMessage>::empty());
    }
}

/// The instruction texts among the first `k` messages when the only
/// instruction messages are at `i` and at `j`, with texts `a` and `b`.
proof fn lemma_two_instructions(msgs: Seq<ChatMessage>, i: int, j: int, a: Seq<char>, b: Seq<char>, k: int)
    requires
        0 <= i < j < msgs.len(),
        0 <= k <= msgs.len(),
        msgs[i].role@ == "system"@ || msgs[i].role@ == "developer"@,
        msgs[j].role@ == "system"@ || msgs[j].role@ == "developer"@,
        ojv(msgs[i].content) == Some(JsonV::Str(a)),
        ojv(msgs[j].content) == Some(JsonV::Str(b)),
        a.len() > 0,
        b.len() > 0,
        forall|x: int|
            0 <= x < msgs.len() && x != i && x != j ==> (#[trigger] msgs[x]).role@ != "system"@ && msgs[x].role@
                != "developer"@,
    ensures
        instr_parts(msgs.take(k)) == if k > j {
            seq![a, b]
        } else if k > i {
            seq![a]
        } else {
            Seq::<Seq<char>>::empty()
        },
    decreases k,
{
    if k > 0 {
        lemma_two_instructions(msgs, i, j, a, b, k - 1);
        assert(msgs.take(k).drop_last() =~= msgs.take(k - 1));
        assert(msgs.take(k).last() == msgs[k - 1]);
        if k - 1 == i {
            assert(Seq::<Seq<char>>::empty().push(a) =~= seq![a]);
        }
        if k - 1 == j {
            assert(seq![a].push(b) =~= seq![a, b]);
        }
    } else {
        assert(msgs.take(0) =~= Seq::<ChatMessage>::empty());
    }
}

/// System and developer messages alike are the instructions: when one of
/// them, with text `t`, is the only instruction message, the body sent
/// upstream has instructions `t`, whatever its role and position.
pub proof fn law_one_instruction_message_is_the_instructions(req: ChatRequest, config: Config, i: int, t: Seq<char>)
    requires
        0 <= i < req.messages@.len(),
        req.messages@[i].role@ == "system"@ || req.messages@[i].role@ == "developer"@,
        ojv(req.messages@[i].content) == Some(JsonV::Str(t)),
        t.len() > 0,
        forall|j: int|
            0 <= j < req.messages@.len() && j != i ==> (#[trigger] req.messages@[j]).role@ != "system"@
                && req.messages@[j].role@ != "developer"@,
    ensures
        jget(body_v(req, config), "instructions"@) == Some(JsonV::Str(t)),
{
    let msgs = req.messages@;
    lemma_one_instruction(msgs, i, t, msgs.len() as int);
    assert(msgs.take(msgs.len() as int) =~= msgs);
    law_body_fields(req, config);
}

/// Two instruction messages, system or developer, are sent in their order,
/// joined by a blank line.
pub proof fn law_instruction_messages_are_joined_in_order(
    req: ChatRequest,
    config: Config,
    i: int,
    j: int,
    a: Seq<char>,
    b: Seq<char>,
)
    requires
        0 <= i < j < req.messages@.len(),
        req.messages@[i].role@ == "system"@ || req.messages@[i].role@ == "developer"@,
        req.messages@[j].role@ == "system"@ || req.messages@[j].role@ == "developer"@,
        ojv(req.messages@[i].content) == Some(JsonV::Str(a)),
        ojv(req.messages@[j].content) == Some(JsonV::Str(b)),
        a.len() > 0,
        b.len() > 0,
        forall|x: int|
            0 <= x < req.messages@.len() && x != i && x != j ==> (#[trigger] req.messages@[x]).role@ != "system"@
                && req.messages@[x].role@ != "developer"@,
    ensures
        jget(body_v(req, config), "instructions"@) == Some(JsonV::Str(a + "\n\n"@ + b)),
{
    let msgs = req.messages@;
    lemma_two_instructions(msgs, i, j, a, b, msgs.len() as int);
    assert(msgs.take(msgs.len() as int) =~= msgs);
    law_body_fields(req, config);
    let parts = seq![a, b];
    assert(parts.drop_last() =~= seq![a]);
    assert(parts.last() == b);
    assert(join(seq![a], "\n\n"@) == a);
    assert(join(parts, "\n\n"@) == a + "\n\n"@ + b);
}

} // verus!


