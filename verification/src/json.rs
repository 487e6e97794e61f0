//! A JSON value the library can reason about, with its mathematical view.

use vstd::prelude::*;

verus! {

/// A JSON value. Numbers are split the way the wire distinguishes them:
/// non-negative integers, negative integers, and everything else, which is
/// kept in its textual form so that it passes through unchanged.
#[derive(Debug, PartialEq)]
pub enum Json {
    Null,
    Bool(bool),
    PosInt(u64),
    NegInt(i64),
    Float(String),
    Str(String),
    Array(Vec<Json>),
    Object(Vec<(String, Json)>),
}

/// The mathematical value of a [`Json`].
pub enum JsonV {
    Null,
    Bool(bool),
    PosInt(u64),
    NegInt(i64),
    Float(Seq<char>),
    Str(Seq<char>),
    Array(Seq<JsonV>),
    Object(Seq<(Seq<char>, JsonV)>),
}

pub open spec fn jv(j: Json) -> JsonV
    decreases j,
{
    match j {
        Json::Null => JsonV::Null,
        Json::Bool(b) => JsonV::Bool(b),
        Json::PosInt(n) => JsonV::PosInt(n),
        Json::NegInt(n) => JsonV::NegInt(n),
        Json::Float(s) => JsonV::Float(s@),
        Json::Str(s) => JsonV::Str(s@),
        Json::Array(v) => JsonV::Array(jv_seq(v@)),
        Json::Object(m) => JsonV::Object(jv_fields(m@)),
    }
}

pub open spec fn jv_seq(s: Seq<Json>) -> Seq<JsonV>
    decreases s,
{
    if s.len() == 0 {
        Seq::empty()
    } else {
        jv_seq(s.drop_last()).push(jv(s.last()))
    }
}

pub open spec fn jv_fields(s: Seq<(String, Json)>) -> Seq<(Seq<char>, JsonV)>
    decreases s,
{
    if s.len() == 0 {
        Seq::empty()
    } else {
        jv_fields(s.drop_last()).push((s.last().0@, jv(s.last().1)))
    }
}

impl View for Json {
    type V = JsonV;

    open spec fn view(&self) -> JsonV {
        jv(*self)
    }
}

} // verus!

verus! {

pub proof fn lemma_jv_seq(s: Seq<Json>)
    ensures
        jv_seq(s).len() == s.len(),
        forall|i: int| 0 <= i < s.len() ==> #[trigger] jv_seq(s)[i] == jv(s[i]),
    decreases s.len(),
{
    if s.len() > 0 {
        lemma_jv_seq(s.drop_last());
    }
}

pub proof fn lemma_jv_fields(s: Seq<(String, Json)>)
    ensures
        jv_fields(s).len() == s.len(),
        forall|i: int|
            0 <= i < s.len() ==> #[trigger] jv_fields(s)[i] == (s[i].0@, jv(s[i].1)),
    decreases s.len(),
{
    if s.len() > 0 {
        lemma_jv_fields(s.drop_last());
    }
}

pub broadcast proof fn lemma_jv_seq_push(s: Seq<Json>, x: Json)
    ensures
        #[trigger] jv_seq(s.push(x)) == jv_seq(s).push(jv(x)),
{
    assert(s.push(x).drop_last() =~= s);
}

pub broadcast proof fn lemma_jv_fields_push(s: Seq<(String, Json)>, x: (String, Json))
    ensures
        #[trigger] jv_fields(s.push(x)) == jv_fields(s).push((x.0@, jv(x.1))),
{
    assert(s.push(x).drop_last() =~= s);
}

/// The value stored under `key` in a field list: the first field so named.
pub open spec fn field_of(fs: Seq<(Seq<char>, JsonV)>, key: Seq<char>) -> Option<JsonV>
    decreases fs.len(),
{
    if fs.len() == 0 {
        None
    } else if fs[0].0 == key {
        Some(fs[0].1)
    } else {
        field_of(fs.drop_first(), key)
    }
}

/// `v[key]` for an object, `None` for anything else.
pub open spec fn jget(v: JsonV, key: Seq<char>) -> Option<JsonV> {
    match v {
        JsonV::Object(fs) => field_of(fs, key),
        _ => None,
    }
}

pub open spec fn opt_jv(o: Option<&Json>) -> Option<JsonV> {
    match o {
        Some(j) => Some(jv(*j)),
        None => None,
    }
}

/// The string inside a JSON string, if it is one.
pub open spec fn jstr(v: Option<JsonV>) -> Option<Seq<char>> {
    match v {
        Some(JsonV::Str(s)) => Some(s),
        _ => None,
    }
}

/// The elements of a JSON array, if it is one.
pub open spec fn jarr(v: Option<JsonV>) -> Option<Seq<JsonV>> {
    match v {
        Some(JsonV::Array(s)) => Some(s),
        _ => None,
    }
}

/// `Value::as_u64` on the view.
pub open spec fn ju64(v: Option<JsonV>) -> Option<u64> {
    match v {
        Some(JsonV::PosInt(n)) => Some(n),
        _ => None,
    }
}

/// `Value::as_bool` on the view.
pub open spec fn jbool(v: Option<JsonV>) -> Option<bool> {
    match v {
        Some(JsonV::Bool(b)) => Some(b),
        _ => None,
    }
}

/// `a == b` on string slices: true exactly when they hold the same characters.
pub(crate) fn str_eq(a: &str, b: &str) -> (r: bool)
    ensures
        r == (a@ == b@),
{
    let x = crate::text::chars_of(a);
    let y = crate::text::chars_of(b);
    if x.len() != y.len() {
        return false;
    }
    let mut i: usize = 0;
    while i < x.len()
        invariant
            i <= x.len(),
            x.len() == y.len(),
            x@ == a@,
            y@ == b@,
            forall|j: int| 0 <= j < i ==> x@[j] == y@[j],
        decreases x.len() - i,
    {
        if x[i] != y[i] {
            return false;
        }
        i = i + 1;
    }
    proof {
        assert(a@ =~= b@);
    }
    true
}

impl Json {
    pub fn string(s: &str) -> (r: Json)
        ensures
            r@ == JsonV::Str(s@),
    {
        Json::Str(s.to_string())
    }

    /// `v.get(key)`.
    pub fn get<'a>(&'a self, key: &str) -> (r: Option<&'a Json>)
        ensures
            opt_jv(r) == jget(self@, key@),
    {
        match self {
            Json::Object(fields) => {
                proof {
                    lemma_jv_fields(fields@);
                    assert(jv(*self) == JsonV::Object(jv_fields(fields@)));
                }
                let ghost fs = jv_fields(fields@);
                assert(fs.subrange(0, fs.len() as int) =~= fs);
                let mut i: usize = 0;
                while i < fields.len()
                    invariant
                        0 <= i <= fields.len(),
                        fs == jv_fields(fields@),
                        self@ == JsonV::Object(fs),
                        fs.len() == fields@.len(),
                        forall|k: int|
                            0 <= k < fields@.len() ==> #[trigger] fs[k] == (
                                fields@[k].0@,
                                jv(fields@[k].1),
                            ),
                        field_of(fs, key@) == field_of(fs.subrange(i as int, fs.len() as int), key@),
                    decreases fields.len() - i,
                {
                    let ghost rest = fs.subrange(i as int, fs.len() as int);
                    assert(rest.len() > 0 && rest[0] == fs[i as int]);
                    if str_eq(fields[i].0.as_str(), key) {
                        assert(field_of(rest, key@) == Some(jv(fields@[i as int].1)));
                        return Some(&fields[i].1);
                    }
                    assert(rest.drop_first() =~= fs.subrange(i + 1, fs.len() as int));
                    i = i + 1;
                }
                None
            },
            _ => None,
        }
    }

    pub fn as_str(&self) -> (r: Option<&str>)
        ensures
            match r {
                Some(s) => self@ == JsonV::Str(s@),
                None => !(self@ is Str),
            },
    {
        match self {
            Json::Str(s) => Some(s.as_str()),
            _ => None,
        }
    }

    pub fn as_array(&self) -> (r: Option<&Vec<Json>>)
        ensures
            match r {
                Some(v) => self@ == JsonV::Array(jv_seq(v@)),
                None => !(self@ is Array),
            },
    {
        match self {
            Json::Array(v) => Some(v),
            _ => None,
        }
    }

    pub fn as_u64(&self) -> (r: Option<u64>)
        ensures
            r == ju64(Some(self@)),
    {
        match self {
            Json::PosInt(n) => Some(*n),
            _ => None,
        }
    }

    pub fn as_bool(&self) -> (r: Option<bool>)
        ensures
            r == jbool(Some(self@)),
    {
        match self {
            Json::Bool(b) => Some(*b),
            _ => None,
        }
    }

    pub fn is_null(&self) -> (r: bool)
        ensures
            r == (self@ is Null),
    {
        match self {
            Json::Null => true,
            _ => false,
        }
    }
}

} // verus!

verus! {

#[verifier::external_type_specification]
#[verifier::external_body]
pub struct ExJsonValue(serde_json::Value);

/// What `serde_json::from_str::<serde_json::Value>` makes of a text: the
/// value it parses, or the message of the error it reports.
pub uninterp spec fn json_parse(text: Seq<char>) -> Result<JsonV, Seq<char>>;

/// What `serde_json::to_string` writes for a value.
pub uninterp spec fn json_text(v: JsonV) -> Seq<char>;

/// Moves a parsed `serde_json::Value` into a [`Json`], variant for variant.
#[verifier::external_body]
fn value_to_json(v: serde_json::Value) -> Json {
    match v {
        serde_json::Value::Null => Json::Null,
        serde_json::Value::Bool(b) => Json::Bool(b),
        serde_json::Value::Number(n) => match (n.as_u64(), n.as_i64()) {
            (Some(u), _) => Json::PosInt(u),
            (None, Some(i)) => Json::NegInt(i),
            (None, None) => Json::Float(n.to_string()),
        },
        serde_json::Value::String(s) => Json::Str(s),
        serde_json::Value::Array(a) => Json::Array(a.into_iter().map(value_to_json).collect()),
        serde_json::Value::Object(m) => Json::Object(m.into_iter().map(|(k, v)| (k, value_to_json(v))).collect()),
    }
}

/// Moves a [`Json`] back into a `serde_json::Value`, variant for variant.
#[verifier::external_body]
fn json_to_value(j: &Json) -> serde_json::Value {
    match j {
        Json::Null => serde_json::Value::Null,
        Json::Bool(b) => serde_json::Value::Bool(*b),
        Json::PosInt(n) => serde_json::Value::from(*n),
        Json::NegInt(n) => serde_json::Value::from(*n),
        Json::Float(s) => s.parse::<serde_json::Number>().map(serde_json::Value::Number).unwrap_or(serde_json::Value::Null),
        Json::Str(s) => serde_json::Value::String(s.clone()),
        Json::Array(a) => serde_json::Value::Array(a.iter().map(json_to_value).collect()),
        Json::Object(m) => serde_json::Value::Object(m.iter().map(|(k, v)| (k.clone(), json_to_value(v))).collect()),
    }
}

/// Parses JSON text with `serde_json::from_str`, keeping the error's
/// message. The contract claims only that the outcome is the one
/// `json_parse` names for this text.
#[verifier::external_body]
pub(crate) fn parse_json(text: &str) -> (r: Result<Json, String>)
    ensures
        match r {
            Ok(j) => json_parse(text@) == Ok::<JsonV, Seq<char>>(j@),
            Err(e) => json_parse(text@) == Err::<JsonV, Seq<char>>(e@),
        },
{
    match serde_json::from_str::<serde_json::Value>(text) {
        Ok(v) => Ok(value_to_json(v)),
        Err(e) => Err(e.to_string()),
    }
}

/// What `serde_json::from_slice::<serde_json::Value>` makes of raw bytes:
/// the value it parses, or the message of the error it reports.
pub uninterp spec fn json_parse_bytes(bytes: Seq<u8>) -> Result<JsonV, Seq<char>>;

/// Parses a JSON body with `serde_json::from_slice`, keeping the error's
/// message. The contract claims only that the outcome is the one
/// `json_parse_bytes` names for these bytes.
#[verifier::external_body]
pub(crate) fn parse_json_bytes(bytes: &[u8]) -> (r: Result<Json, String>)
    ensures
        match r {
            Ok(j) => json_parse_bytes(bytes@) == Ok::<JsonV, Seq<char>>(j@),
            Err(e) => json_parse_bytes(bytes@) == Err::<JsonV, Seq<char>>(e@),
        },
{
    match serde_json::from_slice::<serde_json::Value>(bytes) {
        Ok(v) => Ok(value_to_json(v)),
        Err(e) => Err(e.to_string()),
    }
}

/// Writes a value as compact JSON text with `serde_json::to_string`, which
/// cannot fail on a `serde_json::Value`; the contract claims the text is the
/// one `json_text` names for the value.
#[verifier::external_body]
pub(crate) fn to_json_text(j: &Json) -> (r: String)
    ensures
        r@ == json_text(j@),
{
    serde_json::to_string(&json_to_value(j)).unwrap_or_default()
}

} // verus!

verus! {

/// A key and a value, as an object field.
pub fn field(k: &str, v: Json) -> (r: (String, Json))
    ensures
        r.0@ == k@,
        r.1 == v,
{
    (k.to_string(), v)
}

pub fn obj1(k1: &str, v1: Json) -> (r: Json)
    ensures
        r@ == JsonV::Object(seq![(k1@, v1@)]),
{
    let mut fs: Vec<(String, Json)> = Vec::new();
    fs.push(field(k1, v1));
    proof {
        lemma_jv_fields(fs@);
        assert(jv_fields(fs@) =~= seq![(k1@, v1@)]);
    }
    Json::Object(fs)
}

pub fn obj2(k1: &str, v1: Json, k2: &str, v2: Json) -> (r: Json)
    ensures
        r@ == JsonV::Object(seq![(k1@, v1@), (k2@, v2@)]),
{
    let mut fs: Vec<(String, Json)> = Vec::new();
    fs.push(field(k1, v1));
    fs.push(field(k2, v2));
    proof {
        lemma_jv_fields(fs@);
        assert(jv_fields(fs@) =~= seq![(k1@, v1@), (k2@, v2@)]);
    }
    Json::Object(fs)
}

pub fn obj3(k1: &str, v1: Json, k2: &str, v2: Json, k3: &str, v3: Json) -> (r: Json)
    ensures
        r@ == JsonV::Object(seq![(k1@, v1@), (k2@, v2@), (k3@, v3@)]),
{
    let mut fs: Vec<(String, Json)> = Vec::new();
    fs.push(field(k1, v1));
    fs.push(field(k2, v2));
    fs.push(field(k3, v3));
    proof {
        lemma_jv_fields(fs@);
        assert(jv_fields(fs@) =~= seq![(k1@, v1@), (k2@, v2@), (k3@, v3@)]);
    }
    Json::Object(fs)
}

pub fn obj4(k1: &str, v1: Json, k2: &str, v2: Json, k3: &str, v3: Json, k4: &str, v4: Json) -> (r: Json)
    ensures
        r@ == JsonV::Object(seq![(k1@, v1@), (k2@, v2@), (k3@, v3@), (k4@, v4@)]),
{
    let mut fs: Vec<(String, Json)> = Vec::new();
    fs.push(field(k1, v1));
    fs.push(field(k2, v2));
    fs.push(field(k3, v3));
    fs.push(field(k4, v4));
    proof {
        lemma_jv_fields(fs@);
        assert(jv_fields(fs@) =~= seq![(k1@, v1@), (k2@, v2@), (k3@, v3@), (k4@, v4@)]);
    }
    Json::Object(fs)
}

pub fn obj5(
    k1: &str,
    v1: Json,
    k2: &str,
    v2: Json,
    k3: &str,
    v3: Json,
    k4: &str,
    v4: Json,
    k5: &str,
    v5: Json,
) -> (r: Json)
    ensures
        r@ == JsonV::Object(seq![(k1@, v1@), (k2@, v2@), (k3@, v3@), (k4@, v4@), (k5@, v5@)]),
{
    let mut fs: Vec<(String, Json)> = Vec::new();
    fs.push(field(k1, v1));
    fs.push(field(k2, v2));
    fs.push(field(k3, v3));
    fs.push(field(k4, v4));
    fs.push(field(k5, v5));
    proof {
        lemma_jv_fields(fs@);
        assert(jv_fields(fs@) =~= seq![(k1@, v1@), (k2@, v2@), (k3@, v3@), (k4@, v4@), (k5@, v5@)]);
    }
    Json::Object(fs)
}

pub fn obj6(
    k1: &str,
    v1: Json,
    k2: &str,
    v2: Json,
    k3: &str,
    v3: Json,
    k4: &str,
    v4: Json,
    k5: &str,
    v5: Json,
    k6: &str,
    v6: Json,
) -> (r: Json)
    ensures
        r@ == JsonV::Object(seq![(k1@, v1@), (k2@, v2@), (k3@, v3@), (k4@, v4@), (k5@, v5@), (k6@, v6@)]),
{
    let mut fs: Vec<(String, Json)> = Vec::new();
    fs.push(field(k1, v1));
    fs.push(field(k2, v2));
    fs.push(field(k3, v3));
    fs.push(field(k4, v4));
    fs.push(field(k5, v5));
    fs.push(field(k6, v6));
    proof {
        lemma_jv_fields(fs@);
        assert(jv_fields(fs@) =~= seq![(k1@, v1@), (k2@, v2@), (k3@, v3@), (k4@, v4@), (k5@, v5@), (k6@, v6@)]);
    }
    Json::Object(fs)
}

pub fn obj7(
    k1: &str,
    v1: Json,
    k2: &str,
    v2: Json,
    k3: &str,
    v3: Json,
    k4: &str,
    v4: Json,
    k5: &str,
    v5: Json,
    k6: &str,
    v6: Json,
    k7: &str,
    v7: Json,
) -> (r: Json)
    ensures
        r@ == JsonV::Object(
            seq![(k1@, v1@), (k2@, v2@), (k3@, v3@), (k4@, v4@), (k5@, v5@), (k6@, v6@), (k7@, v7@)],
        ),
{
    let mut fs: Vec<(String, Json)> = Vec::new();
    fs.push(field(k1, v1));
    fs.push(field(k2, v2));
    fs.push(field(k3, v3));
    fs.push(field(k4, v4));
    fs.push(field(k5, v5));
    fs.push(field(k6, v6));
    fs.push(field(k7, v7));
    proof {
        lemma_jv_fields(fs@);
        assert(jv_fields(fs@) =~= seq![
            (k1@, v1@),
            (k2@, v2@),
            (k3@, v3@),
            (k4@, v4@),
            (k5@, v5@),
            (k6@, v6@),
            (k7@, v7@),
        ]);
    }
    Json::Object(fs)
}

/// A signed integer as JSON holds it: non-negative numbers are unsigned.
pub open spec fn jint(n: i64) -> JsonV {
    if n >= 0 {
        JsonV::PosInt(n as u64)
    } else {
        JsonV::NegInt(n)
    }
}

pub fn integer(n: i64) -> (r: Json)
    ensures
        r@ == jint(n),
{
    if n >= 0 {
        Json::PosInt(n as u64)
    } else {
        Json::NegInt(n)
    }
}

/// A string, or null when there is none.
pub open spec fn jopt(s: Option<Seq<char>>) -> JsonV {
    match s {
        Some(t) => JsonV::Str(t),
        None => JsonV::Null,
    }
}

pub fn opt_string(s: Option<&str>) -> (r: Json)
    ensures
        r@ == jopt(match s {
            Some(t) => Some(t@),
            None => None,
        }),
{
    match s {
        Some(t) => Json::string(t),
        None => Json::Null,
    }
}

/// A list of strings as a JSON array.
pub open spec fn jstrings(s: Seq<String>) -> JsonV {
    JsonV::Array(s.map_values(|x: String| JsonV::Str(x@)))
}

pub fn strings(s: &Vec<String>) -> (r: Json)
    ensures
        r@ == jstrings(s@),
{
    let mut out: Vec<Json> = Vec::new();
    let ghost want = s@.map_values(|x: String| JsonV::Str(x@));
    for i in 0..s.len()
        invariant
            want == s@.map_values(|x: String| JsonV::Str(x@)),
            jv_seq(out@) == want.take(i as int),
    {
        let j = Json::string(s[i].as_str());
        proof {
            lemma_jv_seq_push(out@, j);
            assert(want.take(i + 1) =~= want.take(i as int).push(j@));
        }
        out.push(j);
    }
    assert(want.take(s@.len() as int) =~= want);
    Json::Array(out)
}

/// The position of the first field named `key`, or -1.
pub open spec fn first_field(fs: Seq<(Seq<char>, JsonV)>, key: Seq<char>) -> int
    decreases fs.len(),
{
    if fs.len() == 0 {
        -1
    } else if fs.last().0 == key && first_field(fs.drop_last(), key) < 0 {
        fs.len() - 1
    } else {
        first_field(fs.drop_last(), key)
    }
}

/// `key` set in an object's fields: in place where the key is there,
/// appended where it is not.
pub open spec fn set_field_v(fs: Seq<(Seq<char>, JsonV)>, key: Seq<char>, v: JsonV) -> Seq<(Seq<char>, JsonV)> {
    let i = first_field(fs, key);
    if i >= 0 {
        fs.update(i, (key, v))
    } else {
        fs.push((key, v))
    }
}

/// What `value[key] = v` does: an object gets the field, `null` becomes an
/// object of that one field, and anything else is left as it was (serde_json
/// panics there, so callers only pass objects and `null`).
pub open spec fn with_field_v(j: JsonV, key: Seq<char>, v: JsonV) -> JsonV {
    match j {
        JsonV::Object(fs) => JsonV::Object(set_field_v(fs, key, v)),
        JsonV::Null => JsonV::Object(seq![(key, v)]),
        other => other,
    }
}

proof fn lemma_first_field(fs: Seq<(Seq<char>, JsonV)>, key: Seq<char>)
    ensures
        -1 <= first_field(fs, key) < fs.len(),
        first_field(fs, key) >= 0 ==> fs[first_field(fs, key)].0 == key,
        forall|j: int| 0 <= j < fs.len() && (first_field(fs, key) < 0 || j < first_field(fs, key)) ==> #[trigger] fs[j].0 != key,
    decreases fs.len(),
{
    if fs.len() > 0 {
        lemma_first_field(fs.drop_last(), key);
        assert forall|j: int| 0 <= j < fs.len() - 1 implies #[trigger] fs[j] == fs.drop_last()[j] by {}
    }
}

/// The first field so named is the one `field_of` reads.
pub(crate) proof fn lemma_field_of_at(fs: Seq<(Seq<char>, JsonV)>, key: Seq<char>, i: int)
    requires
        0 <= i < fs.len(),
        fs[i].0 == key,
        forall|j: int| 0 <= j < i ==> #[trigger] fs[j].0 != key,
    ensures
        field_of(fs, key) == Some(fs[i].1),
    decreases i,
{
    if i > 0 {
        let rest = fs.drop_first();
        assert forall|j: int| 0 <= j < i - 1 implies #[trigger] rest[j].0 != key by {
            assert(rest[j] == fs[j + 1]);
        }
        lemma_field_of_at(rest, key, i - 1);
    }
}

pub(crate) proof fn lemma_field_of_absent(fs: Seq<(Seq<char>, JsonV)>, key: Seq<char>)
    requires
        forall|j: int| 0 <= j < fs.len() ==> #[trigger] fs[j].0 != key,
    ensures
        field_of(fs, key) is None,
    decreases fs.len(),
{
    if fs.len() > 0 {
        let rest = fs.drop_first();
        assert forall|j: int| 0 <= j < rest.len() implies #[trigger] rest[j].0 != key by {
            assert(rest[j] == fs[j + 1]);
        }
        lemma_field_of_absent(rest, key);
    }
}

/// Two field lists that agree wherever a field is named `key` read the
/// same under it.
proof fn lemma_field_of_agree(fs: Seq<(Seq<char>, JsonV)>, gs: Seq<(Seq<char>, JsonV)>, key: Seq<char>)
    requires
        fs.len() <= gs.len(),
        forall|j: int| 0 <= j < fs.len() ==> (#[trigger] fs[j].0 == key <==> gs[j].0 == key),
        forall|j: int| 0 <= j < fs.len() && fs[j].0 == key ==> #[trigger] fs[j] == gs[j],
        forall|j: int| fs.len() <= j < gs.len() ==> #[trigger] gs[j].0 != key,
    ensures
        field_of(fs, key) == field_of(gs, key),
    decreases fs.len(),
{
    if fs.len() == 0 {
        lemma_field_of_absent(gs, key);
    } else if fs[0].0 != key {
        let (f2, g2) = (fs.drop_first(), gs.drop_first());
        assert forall|j: int| 0 <= j < f2.len() implies (#[trigger] f2[j].0 == key <==> g2[j].0 == key) by {
            assert(f2[j] == fs[j + 1] && g2[j] == gs[j + 1]);
        }
        assert forall|j: int| 0 <= j < f2.len() && f2[j].0 == key implies #[trigger] f2[j] == g2[j] by {
            assert(f2[j] == fs[j + 1] && g2[j] == gs[j + 1]);
        }
        assert forall|j: int| f2.len() <= j < g2.len() implies #[trigger] g2[j].0 != key by {
            assert(g2[j] == gs[j + 1]);
        }
        lemma_field_of_agree(f2, g2, key);
    }
}

/// What is set is read back, and every other field reads as before: the
/// rule the served model and the forced stream flag rely on.
pub proof fn law_a_set_field_reads_back(v: JsonV, key: Seq<char>, x: JsonV, other: Seq<char>)
    requires
        v is Object,
        other != key,
    ensures
        jget(with_field_v(v, key, x), key) == Some(x),
        jget(with_field_v(v, key, x), other) == jget(v, other),
{
    let fs = v->Object_0;
    lemma_first_field(fs, key);
    let i = first_field(fs, key);
    let gs = set_field_v(fs, key, x);
    if i >= 0 {
        assert forall|j: int| 0 <= j < i implies #[trigger] gs[j].0 != key by {
            assert(gs[j] == fs[j]);
        }
        lemma_field_of_at(gs, key, i);
        assert forall|j: int| 0 <= j < fs.len() implies (#[trigger] fs[j].0 == other <==> gs[j].0 == other) by {
            if j != i {
                assert(gs[j] == fs[j]);
            }
        }
        assert forall|j: int| 0 <= j < fs.len() && fs[j].0 == other implies #[trigger] fs[j] == gs[j] by {}
        lemma_field_of_agree(fs, gs, other);
    } else {
        assert forall|j: int| 0 <= j < fs.len() implies #[trigger] gs[j].0 != key by {
            assert(gs[j] == fs[j]);
        }
        lemma_field_of_at(gs, key, fs.len() as int);
        assert forall|j: int| 0 <= j < fs.len() implies (#[trigger] fs[j].0 == other <==> gs[j].0 == other) by {
            assert(gs[j] == fs[j]);
        }
        assert forall|j: int| 0 <= j < fs.len() && fs[j].0 == other implies #[trigger] fs[j] == gs[j] by {
            assert(gs[j] == fs[j]);
        }
        lemma_field_of_agree(fs, gs, other);
    }
}

pub fn with_field(j: Json, key: &str, v: Json) -> (r: Json)
    ensures
        r@ == with_field_v(j@, key@, v@),
{
    match j {
        Json::Object(mut fs) => {
            let ghost fs0 = fs@;
            assert(j@ == JsonV::Object(jv_fields(fs0)));
            let mut i: usize = 0;
            while i < fs.len()
                invariant
                    i <= fs.len(),
                    fs@ == fs0,
                    j@ == JsonV::Object(jv_fields(fs0)),
                    forall|k: int| 0 <= k < i ==> #[trigger] fs@[k].0@ != key@,
                decreases fs.len() - i,
            {
                if str_eq(fs[i].0.as_str(), key) {
                    let ghost before = fs@;
                    fs.set(i, field(key, v));
                    proof {
                        lemma_jv_fields(fs@);
                        lemma_jv_fields(before);
                        lemma_first_field(jv_fields(before), key@);
                        let f = first_field(jv_fields(before), key@);
                        if f >= 0 && f < i {
                            assert(before[f].0@ != key@);
                        }
                        if f < 0 {
                            assert(jv_fields(before)[i as int].0 == key@);
                        }
                        assert(first_field(jv_fields(before), key@) == i);
                        assert(jv_fields(fs@) =~= jv_fields(before).update(i as int, (key@, v@)));
                    }
                    return Json::Object(fs);
                }
                i = i + 1;
            }
            let ghost before = fs@;
            fs.push(field(key, v));
            proof {
                lemma_jv_fields(fs@);
                lemma_jv_fields(before);
                lemma_first_field(jv_fields(before), key@);
                if first_field(jv_fields(before), key@) >= 0 {
                    let f = first_field(jv_fields(before), key@);
                    assert(before[f].0@ != key@);
                }
                assert(jv_fields(fs@) =~= jv_fields(before).push((key@, v@)));
            }
            Json::Object(fs)
        },
        Json::Null => {
            let mut fs: Vec<(String, Json)> = Vec::new();
            fs.push(field(key, v));
            proof {
                lemma_jv_fields(fs@);
                assert(jv_fields(fs@) =~= seq![(key@, v@)]);
            }
            Json::Object(fs)
        },
        other => other,
    }
}

/// An array of one value.
pub fn array1(j: Json) -> (r: Json)
    ensures
        r@ == JsonV::Array(seq![j@]),
{
    let mut items: Vec<Json> = Vec::new();
    items.push(j);
    proof {
        lemma_jv_seq(items@);
    }
    assert(jv_seq(items@) =~= seq![j@]);
    Json::Array(items)
}

pub fn array_of(items: Vec<Json>) -> (r: Json)
    ensures
        r@ == JsonV::Array(jv_seq(items@)),
{
    Json::Array(items)
}

pub fn clone_json(j: &Json) -> (r: Json)
    ensures
        r@ == j@,
    decreases j,
{
    match j {
        Json::Null => Json::Null,
        Json::Bool(b) => Json::Bool(*b),
        Json::PosInt(n) => Json::PosInt(*n),
        Json::NegInt(n) => Json::NegInt(*n),
        Json::Float(s) => Json::Float(s.clone()),
        Json::Str(s) => Json::Str(s.clone()),
        Json::Array(v) => {
            let mut out: Vec<Json> = Vec::new();
            let mut i: usize = 0;
            proof {
                lemma_jv_seq(v@);
            }
            while i < v.len()
                invariant
                    i <= v.len(),
                    jv_seq(out@) == jv_seq(v@).take(i as int),
                    *j == Json::Array(*v),
                    jv_seq(v@).len() == v@.len(),
                    forall|k: int| 0 <= k < v@.len() ==> #[trigger] jv_seq(v@)[k] == jv(v@[k]),
                decreases v.len() - i,
            {
                assert(decreases_to!(*j => (*j)->Array_0));
                assert((*j)->Array_0 == *v);
                assert(decreases_to!(*v => v@));
                assert(decreases_to!(v@ => v@[i as int]));
                let c = clone_json(&v[i]);
                proof {
                    lemma_jv_seq_push(out@, c);
                    assert(jv_seq(v@).take(i + 1) =~= jv_seq(v@).take(i as int).push(jv(v@[i as int])));
                }
                out.push(c);
                i = i + 1;
            }
            assert(jv_seq(v@).take(v@.len() as int) =~= jv_seq(v@));
            Json::Array(out)
        },
        Json::Object(m) => {
            let mut out: Vec<(String, Json)> = Vec::new();
            let mut i: usize = 0;
            proof {
                lemma_jv_fields(m@);
            }
            while i < m.len()
                invariant
                    i <= m.len(),
                    jv_fields(out@) == jv_fields(m@).take(i as int),
                    *j == Json::Object(*m),
                    jv_fields(m@).len() == m@.len(),
                    forall|k: int|
                        0 <= k < m@.len() ==> #[trigger] jv_fields(m@)[k] == (m@[k].0@, jv(m@[k].1)),
                decreases m.len() - i,
            {
                assert(decreases_to!(*j => (*j)->Object_0));
                assert((*j)->Object_0 == *m);
                assert(decreases_to!(*m => m@));
                assert(decreases_to!(m@ => m@[i as int]));
                assert(decreases_to!(m@[i as int] => m@[i as int].1));
                let c = (m[i].0.clone(), clone_json(&m[i].1));
                proof {
                    lemma_jv_fields_push(out@, c);
                    assert(jv_fields(m@).take(i + 1) =~= jv_fields(m@).take(i as int).push(
                        (m@[i as int].0@, jv(m@[i as int].1)),
                    ));
                }
                out.push(c);
                i = i + 1;
            }
            assert(jv_fields(m@).take(m@.len() as int) =~= jv_fields(m@));
            Json::Object(out)
        },
    }
}

} // verus!

verus! {

/// Appends a copy of every element of `items` to `out`.
pub fn append_all(out: &mut Vec<Json>, items: &Vec<Json>)
    ensures
        jv_seq(final(out)@) == jv_seq(old(out)@) + jv_seq(items@),
{
    let ghost start = jv_seq(out@);
    proof {
        lemma_jv_seq(items@);
    }
    let mut i: usize = 0;
    while i < items.len()
        invariant
            i <= items.len(),
            jv_seq(out@) == start + jv_seq(items@).take(i as int),
            jv_seq(items@).len() == items@.len(),
            forall|k: int| 0 <= k < items@.len() ==> #[trigger] jv_seq(items@)[k] == jv(items@[k]),
        decreases items.len() - i,
    {
        let c = clone_json(&items[i]);
        proof {
            lemma_jv_seq_push(out@, c);
            assert(start + jv_seq(items@).take(i + 1) =~= (start + jv_seq(items@).take(i as int)).push(
                jv(items@[i as int]),
            ));
        }
        out.push(c);
        i = i + 1;
    }
    assert(jv_seq(items@).take(items@.len() as int) =~= jv_seq(items@));
}

pub proof fn lemma_jv_seq_concat(a: Seq<Json>, b: Seq<Json>)
    ensures
        jv_seq(a + b) == jv_seq(a) + jv_seq(b),
    decreases b.len(),
{
    if b.len() == 0 {
        assert(a + b =~= a);
        assert(jv_seq(a) + jv_seq(b) =~= jv_seq(a));
    } else {
        lemma_jv_seq_concat(a, b.drop_last());
        assert((a + b).drop_last() =~= a + b.drop_last());
        assert((a + b).last() == b.last());
        assert(jv_seq(a) + jv_seq(b) =~= (jv_seq(a) + jv_seq(b.drop_last())).push(jv(b.last())));
    }
}

} // verus!

verus! {

pub fn empty_object() -> (r: Json)
    ensures
        r@ == JsonV::Object(Seq::empty()),
{
    let fs: Vec<(String, Json)> = Vec::new();
    assert(jv_fields(fs@) =~= Seq::empty());
    Json::Object(fs)
}

} // verus!
