//! Chat requests and what is answered.
use serde_json::{Error as JsonError, Value as Document};
use vstd::prelude::*;

use super::http;
use super::http::reply;
use super::json;
use super::json::Json;
use super::streaming;
use super::streaming::lossy_text;
use crate::fp;
use crate::fp::f64_to_f32;
use crate::gguf::parse::Gguf;
use crate::gguf::value::Val;
use crate::text;
use crate::text::{push_decimal, push_str, same_str};

verus! {

/// A message of a conversation.
pub enum Turn {
    System(String),
    User(String),
    Assistant(String),
}

/// A message of a conversation.
pub enum TurnView {
    System(Seq<char>),
    User(Seq<char>),
    Assistant(Seq<char>),
}

impl View for Turn {
    type V = TurnView;

    open spec fn view(&self) -> TurnView {
        match self {
            Turn::System(s) => TurnView::System(s@),
            Turn::User(s) => TurnView::User(s@),
            Turn::Assistant(s) => TurnView::Assistant(s@),
        }
    }
}

/// The messages of a conversation.
pub open spec fn turn_views(s: Seq<Turn>) -> Seq<TurnView> {
    s.map_values(|t: Turn| t@)
}

/// The text of a document; nothing where it is no string.
pub open spec fn text_of(j: Json) -> Seq<char> {
    match j {
        Json::Str(s) => s,
        _ => Seq::empty(),
    }
}

/// The message that a document stands for; none where its role is unknown.
pub open spec fn turn_of(j: Json) -> Option<TurnView> {
    let role = text_of(json::member_of(j, "role"@));
    let content = text_of(json::member_of(j, "content"@));
    if role == "system"@ {
        Some(TurnView::System(content))
    } else if role == "user"@ {
        Some(TurnView::User(content))
    } else if role == "assistant"@ {
        Some(TurnView::Assistant(content))
    } else {
        None
    }
}

/// The messages among the first `n` documents of a list, in their order.
pub open spec fn turns_of(a: Seq<Json>, n: int) -> Seq<TurnView>
    decreases n,
{
    if n <= 0 {
        Seq::empty()
    } else {
        match turn_of(a[n - 1]) {
            Some(t) => turns_of(a, n - 1).push(t),
            None => turns_of(a, n - 1),
        }
    }
}

/// What a chat request asks for.
pub struct ChatRequest {
    pub turns: Vec<Turn>,
    pub max_tokens: usize,
    pub seed: u64,
    pub stream: bool,
    /// How tokens are drawn, as bits of double precision, where it is said.
    pub temperature: Option<u64>,
    pub top_p: Option<u64>,
    pub min_p: Option<u64>,
}

/// Why a chat request is refused.
pub enum ChatFault {
    Json(JsonError),
    NoMessages,
}

/// The natural number under a key, or another.
pub open spec fn natural_or(j: Json, key: Seq<char>, other: u64) -> u64 {
    match json::member_of(j, key) {
        Json::Nat(n) => n,
        _ => other,
    }
}

/// The text of a document as a string.
fn text_in(v: &Document, key: &str) -> (r: String)
    ensures
        r@ == text_of(json::member_of(json::json(*v), key@)),
{
    let mut s = String::new();
    match json::as_str(json::member(v, key)) {
        Some(t) => {
            push_str(&mut s, t);
            assert(s@ =~= t@);
        },
        None => {
            assert(s@ =~= Seq::<char>::empty());
        },
    }
    s
}

/// The natural number under a key, or another.
fn natural_in(v: &Document, key: &str, other: u64) -> (r: u64)
    ensures
        r == natural_or(json::json(*v), key@, other),
{
    match json::as_u64(json::member(v, key)) {
        Some(n) => n,
        None => other,
    }
}

/// The message that a document stands for.
fn read_turn(v: &Document) -> (r: Option<Turn>)
    ensures
        match (r, turn_of(json::json(*v))) {
            (Some(t), Some(u)) => t@ == u,
            (None, None) => true,
            _ => false,
        },
{
    let role = text_in(v, "role");
    let content = text_in(v, "content");
    if same_str(role.as_str(), "system") {
        Some(Turn::System(content))
    } else if same_str(role.as_str(), "user") {
        Some(Turn::User(content))
    } else if same_str(role.as_str(), "assistant") {
        Some(Turn::Assistant(content))
    } else {
        None
    }
}

/// What a document asks for as a chat request.
pub open spec fn asks(r: ChatRequest, j: Json) -> bool {
    &&& json::member_of(j, "messages"@) matches Json::Arr(a) && turn_views(r.turns@) == turns_of(
        a,
        a.len() as int,
    )
    &&& r.max_tokens == natural_or(j, "max_tokens"@, 1024) as usize
    &&& r.seed == natural_or(j, "seed"@, 42)
    &&& r.stream == (json::member_of(j, "stream"@) == Json::Bool(true))
    &&& r.temperature == json::double_in(json::member_of(j, "temperature"@))
    &&& r.top_p == json::double_in(json::member_of(j, "top_p"@))
    &&& r.min_p == json::double_in(json::member_of(j, "min_p"@))
}

/// Reads a chat request from its document.
pub fn chat_of(doc: Document) -> (r: Result<ChatRequest, ChatFault>)
    ensures
        match r {
            Ok(q) => asks(q, json::json(doc)),
            Err(e) => e is NoMessages && !(json::member_of(json::json(doc), "messages"@) is Arr),
        },
{
    let mut turns: Vec<Turn> = Vec::new();
    match json::as_array(json::member(&doc, "messages")) {
        None => {
            return Err(ChatFault::NoMessages);
        },
        Some(list) => {
            let ghost a = json::jsons(list@);
            let n: usize = list.len();
            let mut i: usize = 0;
            assert(turn_views(turns@) =~= Seq::<TurnView>::empty());
            while i < n
                invariant
                    i <= n,
                    n == list@.len(),
                    a == json::jsons(list@),
                    turn_views(turns@) == turns_of(a, i as int),
                decreases n - i,
            {
                assert(a[i as int] == json::json(list@[i as int]));
                match read_turn(&list[i]) {
                    Some(t) => {
                        let ghost before = turns@;
                        turns.push(t);
                        assert(turn_views(turns@) =~= turn_views(before).push(t@));
                    },
                    None => {},
                }
                i = i + 1;
            }
        },
    }
    let max_tokens: usize = natural_in(&doc, "max_tokens", 1024) as usize;
    let seed: u64 = natural_in(&doc, "seed", 42);
    let stream: bool = match json::as_bool(json::member(&doc, "stream")) {
        Some(b) => b,
        None => false,
    };
    Ok(
        ChatRequest {
            turns,
            max_tokens,
            seed,
            stream,
            temperature: json::as_double(json::member(&doc, "temperature")),
            top_p: json::as_double(json::member(&doc, "top_p")),
            min_p: json::as_double(json::member(&doc, "min_p")),
        },
    )
}

/// Reads a chat request from the body of a request.
pub fn read_chat(body: &[u8]) -> (r: Result<ChatRequest, ChatFault>)
    ensures
        match (r, json::parsed(body@)) {
            (Ok(q), Some(j)) => asks(q, j),
            (Ok(_), None) => false,
            (Err(e), Some(j)) => e is NoMessages && !(json::member_of(j, "messages"@) is Arr),
            (Err(e), None) => e is Json,
        },
{
    match json::parse(body) {
        Ok(doc) => chat_of(doc),
        Err(e) => Err(ChatFault::Json(e)),
    }
}

/// How tokens are drawn, as patterns of single precision.
#[derive(Debug, Clone, Copy, PartialEq, Eq, Structural)]
pub struct Sampling {
    pub temperature: u32,
    pub top_p: u32,
    pub min_p: u32,
}

/// The temperature that a model asks for, or nine tenths, in single precision.
pub open spec fn temperature_of(m: Map<Seq<char>, Val>) -> u32 {
    let key = "general.sampling.temp"@;
    if m.contains_key(key) && m[key].to_f32() is Some {
        m[key].to_f32()->0
    } else {
        0x3f66_6666
    }
}

/// The temperature of requests that give none.
pub fn default_temperature(g: &Gguf) -> (r: u32)
    ensures
        r == temperature_of(g.metadata@),
{
    match g.metadata.get("general.sampling.temp") {
        Some(v) => match v.as_f32() {
            Some(x) => x,
            None => 0x3f66_6666,
        },
        None => 0x3f66_6666,
    }
}

/// A setting in single precision, or another.
pub open spec fn setting(bits: Option<u64>, other: u32) -> u32 {
    match bits {
        Some(b) => fp::narrow_of(b) as u32,
        None => other,
    }
}

/// How tokens are drawn: what the request gives, in double precision, or the defaults.
pub fn sampling(temperature: Option<u64>, top_p: Option<u64>, min_p: Option<u64>, default: u32) -> (r:
    Sampling)
    ensures
        r == (Sampling {
            temperature: setting(temperature, default),
            top_p: setting(top_p, 0x3f80_0000),
            min_p: setting(min_p, 0),
        }),
{
    Sampling {
        temperature: match temperature {
            Some(b) => f64_to_f32(b),
            None => default,
        },
        top_p: match top_p {
            Some(b) => f64_to_f32(b),
            None => 0x3f80_0000,
        },
        min_p: match min_p {
            Some(b) => f64_to_f32(b),
            None => 0,
        },
    }
}

/// Whether a prompt leaves room in the context for an answer.
pub fn prompt_fits(prompt: usize, ctx: u32) -> (r: bool)
    ensures
        r == (prompt + 2 < ctx),
{
    prompt as u128 + 2 < ctx as u128
}

/// The name of a completion.
pub open spec fn id_text(request: u64) -> Seq<char> {
    "chatcmpl-"@ + text::decimal(request as nat)
}

/// The name of a completion.
pub fn completion_id(request: u64) -> (r: String)
    ensures
        r@ == id_text(request),
{
    let mut s = String::new();
    push_str(&mut s, "chatcmpl-");
    push_decimal(&mut s, request);
    assert(s@ =~= id_text(request));
    s
}

/// The list of models, of which there is one.
pub open spec fn models_tree(name: Seq<char>) -> Json {
    Json::Obj(
        map![
            "object"@ => Json::Str("list"@),
            "data"@ => Json::Arr(seq![Json::Obj(map![
                "id"@ => Json::Str(name),
                "object"@ => Json::Str("model"@),
                "owned_by"@ => Json::Str("pulsar"@),
            ])]),
        ],
    )
}

/// An array of one element.
fn single(v: Document) -> (r: Document)
    ensures
        json::json(r) == Json::Arr(seq![json::json(v)]),
{
    let ghost j = json::json(v);
    let mut a: Vec<Document> = Vec::new();
    a.push(v);
    assert(json::jsons(a@) =~= seq![j]);
    json::array(a)
}

/// The reply that lists the models.
pub fn models_reply(name: &str) -> (r: String)
    ensures
        r@ == http::reply_text(200, json::rendered(models_tree(name@))),
{
    let mut m = json::object();
    json::put(&mut m, "id", json::string(name));
    json::put(&mut m, "object", json::string("model"));
    json::put(&mut m, "owned_by", json::string("pulsar"));
    let mut v = json::object();
    json::put(&mut v, "object", json::string("list"));
    json::put(&mut v, "data", single(m));
    assert(json::json(v) == models_tree(name@));
    reply(200, json::render(&v).as_str())
}

/// What a refused request is answered.
pub open spec fn error_tree(message: Seq<char>) -> Json {
    Json::Obj(map!["error"@ => Json::Obj(map!["message"@ => Json::Str(message)])])
}

/// What a refused request is answered.
fn error_reply(status: u16, message: &str) -> (r: String)
    ensures
        r@ == http::reply_text(status, json::rendered(error_tree(message@))),
{
    let mut m = json::object();
    json::put(&mut m, "message", json::string(message));
    let mut v = json::object();
    json::put(&mut v, "error", m);
    assert(json::json(v) == error_tree(message@));
    reply(status, json::render(&v).as_str())
}

/// The reply to a request for what there is not.
pub fn not_found_reply() -> (r: String)
    ensures
        r@ == http::reply_text(404, json::rendered(error_tree("not found"@))),
{
    error_reply(404, "not found")
}

/// The reply to a prompt that does not fit.
pub fn too_long_reply() -> (r: String)
    ensures
        r@ == http::reply_text(400, json::rendered(error_tree("prompt exceeds context"@))),
{
    error_reply(400, "prompt exceeds context")
}

/// A part of a streamed answer.
pub open spec fn chunk_tree(id: Seq<char>, model: Seq<char>, delta: Json, reason: Json) -> Json {
    Json::Obj(
        map![
            "id"@ => Json::Str(id),
            "object"@ => Json::Str("chat.completion.chunk"@),
            "model"@ => Json::Str(model),
            "choices"@ => Json::Arr(seq![Json::Obj(map![
                "index"@ => Json::Nat(0),
                "delta"@ => delta,
                "finish_reason"@ => reason,
            ])]),
        ],
    )
}

/// A part of a streamed answer.
fn chunk(id: &str, model: &str, delta: Document, reason: Document) -> (r: Document)
    ensures
        json::json(r) == chunk_tree(id@, model@, json::json(delta), json::json(reason)),
{
    let ghost d = json::json(delta);
    let ghost f = json::json(reason);
    let mut c = json::object();
    json::put(&mut c, "index", json::natural(0));
    json::put(&mut c, "delta", delta);
    json::put(&mut c, "finish_reason", reason);
    let mut v = json::object();
    json::put(&mut v, "id", json::string(id));
    json::put(&mut v, "object", json::string("chat.completion.chunk"));
    json::put(&mut v, "model", json::string(model));
    json::put(&mut v, "choices", single(c));
    assert(json::json(v) == chunk_tree(id@, model@, d, f));
    v
}

/// The event that sends a part of the text.
pub fn text_event(id: &str, model: &str, content: &str) -> (r: String)
    ensures
        r@ == http::event_text(
            json::rendered(
                chunk_tree(
                    id@,
                    model@,
                    Json::Obj(map!["content"@ => Json::Str(content@)]),
                    Json::Null,
                ),
            ),
        ),
{
    let mut d = json::object();
    json::put(&mut d, "content", json::string(content));
    assert(json::json(d) == Json::Obj(map!["content"@ => Json::Str(content@)]));
    let v = chunk(id, model, d, json::null());
    http::event(json::render(&v).as_str())
}

/// The events that end a streamed answer.
pub fn closing_events(id: &str, model: &str) -> (r: String)
    ensures
        r@ == http::event_text(
            json::rendered(
                chunk_tree(id@, model@, Json::Obj(Map::empty()), Json::Str("stop"@)),
            ),
        ) + http::event_text("[DONE]"@),
{
    let v = chunk(id, model, json::object(), json::string("stop"));
    let mut s = http::event(json::render(&v).as_str());
    push_str(&mut s, http::event("[DONE]").as_str());
    s
}

/// A whole answer.
pub open spec fn completion_tree(
    id: Seq<char>,
    model: Seq<char>,
    content: Seq<char>,
    prompt: u64,
    completion: u64,
) -> Json {
    Json::Obj(
        map![
            "id"@ => Json::Str(id),
            "object"@ => Json::Str("chat.completion"@),
            "model"@ => Json::Str(model),
            "choices"@ => Json::Arr(seq![Json::Obj(map![
                "index"@ => Json::Nat(0),
                "message"@ => Json::Obj(map![
                    "role"@ => Json::Str("assistant"@),
                    "content"@ => Json::Str(content),
                ]),
                "finish_reason"@ => Json::Str("stop"@),
            ])]),
            "usage"@ => Json::Obj(map![
                "prompt_tokens"@ => Json::Nat(prompt),
                "completion_tokens"@ => Json::Nat(completion),
                "total_tokens"@ => Json::Nat((prompt + completion) as u64),
            ]),
        ],
    )
}

/// The reply with a whole answer, from the bytes of its tokens.
pub fn completion_reply(id: &str, model: &str, bytes: &[u8], prompt: u64, completion: u64) -> (r:
    String)
    requires
        prompt + completion <= u64::MAX,
    ensures
        r@ == http::reply_text(
            200,
            json::rendered(
                completion_tree(id@, model@, streaming::lossy(bytes@), prompt, completion),
            ),
        ),
{
    let content = lossy_text(bytes);
    let mut m = json::object();
    json::put(&mut m, "role", json::string("assistant"));
    json::put(&mut m, "content", json::string(content.as_str()));
    let mut c = json::object();
    json::put(&mut c, "index", json::natural(0));
    json::put(&mut c, "message", m);
    json::put(&mut c, "finish_reason", json::string("stop"));
    let mut u = json::object();
    json::put(&mut u, "prompt_tokens", json::natural(prompt));
    json::put(&mut u, "completion_tokens", json::natural(completion));
    json::put(&mut u, "total_tokens", json::natural(prompt + completion));
    let mut v = json::object();
    json::put(&mut v, "id", json::string(id));
    json::put(&mut v, "object", json::string("chat.completion"));
    json::put(&mut v, "model", json::string(model));
    json::put(&mut v, "choices", single(c));
    json::put(&mut v, "usage", u);
    assert(json::json(v) == completion_tree(id@, model@, content@, prompt, completion));
    reply(200, json::render(&v).as_str())
}

} // verus!
