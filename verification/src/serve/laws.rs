//! What the server promises of the requests it reads and of the answers it writes.
use vstd::prelude::*;
use vstd::utf8::*;

use super::args;
use super::args::Settings;
use super::chat;
use super::chat::{ChatRequest, TurnView};
use super::http;
use super::http::{HeaderLine, Route};
use super::json;
use super::json::Json;
use crate::fp;
use crate::gguf::value::Val;
use crate::stream::plan;
use crate::text;
use crate::words;

verus! {

proof fn lemma_roles()
    ensures
        "role"@.len() == 4,
        "content"@.len() == 7,
        "system"@.len() == 6,
        "user"@.len() == 4,
        "assistant"@.len() == 9,
{
    reveal_strlit("role");
    reveal_strlit("content");
    reveal_strlit("system");
    reveal_strlit("user");
    reveal_strlit("assistant");
}

/// A message of one of the three roles is read as a turn of that role that holds exactly its
/// content, whatever the content is and whatever else the message says.
pub proof fn law_turn_holds_content(m: Map<Seq<char>, Json>, s: Seq<char>)
    requires
        m.contains_key("role"@),
        m.contains_key("content"@),
        m["content"@] == Json::Str(s),
    ensures
        m["role"@] == Json::Str("system"@) ==> chat::turn_of(Json::Obj(m)) == Some(
            TurnView::System(s),
        ),
        m["role"@] == Json::Str("user"@) ==> chat::turn_of(Json::Obj(m)) == Some(TurnView::User(s)),
        m["role"@] == Json::Str("assistant"@) ==> chat::turn_of(Json::Obj(m)) == Some(
            TurnView::Assistant(s),
        ),
{
    lemma_roles();
}

/// A message whose content is no string, or that has none, is read as a turn without text; one whose
/// role is not one of the three, or that has none, is passed over.
pub proof fn law_other_messages(m: Map<Seq<char>, Json>, j: Json)
    ensures
        m.contains_key("role"@) && m["role"@] == Json::Str("user"@) && (m.contains_key("content"@)
            ==> !(m["content"@] is Str)) ==> chat::turn_of(Json::Obj(m)) == Some(
            TurnView::User(Seq::empty()),
        ),
        m.contains_key("role"@) && m["role"@] == Json::Str("system"@) && (m.contains_key(
            "content"@,
        ) ==> !(m["content"@] is Str)) ==> chat::turn_of(Json::Obj(m)) == Some(
            TurnView::System(Seq::empty()),
        ),
        m.contains_key("role"@) && m["role"@] == Json::Str("assistant"@) && (m.contains_key(
            "content"@,
        ) ==> !(m["content"@] is Str)) ==> chat::turn_of(Json::Obj(m)) == Some(
            TurnView::Assistant(Seq::empty()),
        ),
        (m.contains_key("role"@) ==> m["role"@] != Json::Str("user"@) && m["role"@] != Json::Str(
            "system"@,
        ) && m["role"@] != Json::Str("assistant"@)) ==> chat::turn_of(Json::Obj(m)) is None,
        !(j is Obj) ==> chat::turn_of(j) is None,
{
    lemma_roles();
}

/// The content decides nothing but the text: two messages that differ only in it are read as turns
/// of the same role, and two texts are read as two turns.
pub proof fn law_content_alone(m: Map<Seq<char>, Json>, s: Seq<char>, t: Seq<char>)
    requires
        chat::turn_of(Json::Obj(m.insert("content"@, Json::Str(s)))) is Some,
    ensures
        match (
            chat::turn_of(Json::Obj(m.insert("content"@, Json::Str(s))))->0,
            chat::turn_of(Json::Obj(m.insert("content"@, Json::Str(t))))->0,
        ) {
            (TurnView::System(a), TurnView::System(b)) => a == s && b == t,
            (TurnView::User(a), TurnView::User(b)) => a == s && b == t,
            (TurnView::Assistant(a), TurnView::Assistant(b)) => a == s && b == t,
            _ => false,
        },
        chat::turn_of(Json::Obj(m.insert("content"@, Json::Str(t)))) is Some,
{
    lemma_roles();
}

proof fn lemma_turns_prefix(a: Seq<Json>, b: Seq<Json>, n: int)
    requires
        0 <= n <= a.len(),
        n <= b.len(),
        a.take(n) == b.take(n),
    ensures
        chat::turns_of(a, n) == chat::turns_of(b, n),
    decreases n,
{
    if n > 0 {
        assert(a.take(n)[n - 1] == b.take(n)[n - 1]);
        assert(a.take(n - 1) =~= a.take(n).take(n - 1));
        assert(b.take(n - 1) =~= b.take(n).take(n - 1));
        lemma_turns_prefix(a, b, n - 1);
        assert(a.take(n)[n - 1] == a[n - 1]);
        assert(b.take(n)[n - 1] == b[n - 1]);
        match chat::turn_of(a[n - 1]) {
            Some(t) => assert(chat::turns_of(a, n) == chat::turns_of(a, n - 1).push(t)),
            None => assert(chat::turns_of(a, n) == chat::turns_of(a, n - 1)),
        }
    }
}

/// The turns of a conversation are those of its messages, in order: each message adds its own behind
/// those before it, and one that is none adds nothing.
pub proof fn law_turns_in_order(a: Seq<Json>, j: Json)
    ensures
        chat::turns_of(Seq::empty(), 0) == Seq::<TurnView>::empty(),
        chat::turn_of(j) matches Some(t) ==> chat::turns_of(a.push(j), a.len() as int + 1)
            == chat::turns_of(a, a.len() as int).push(t),
        chat::turn_of(j) is None ==> chat::turns_of(a.push(j), a.len() as int + 1)
            == chat::turns_of(a, a.len() as int),
{
    assert(a.push(j).take(a.len() as int) =~= a.take(a.len() as int));
    lemma_turns_prefix(a.push(j), a, a.len() as int);
}

/// Where every message is a turn there are as many turns as messages, each in its place.
pub proof fn law_every_turn_kept(a: Seq<Json>, n: int)
    requires
        0 <= n <= a.len(),
        forall|i: int| 0 <= i < n ==> chat::turn_of(#[trigger] a[i]) is Some,
    ensures
        chat::turns_of(a, n).len() == n,
        forall|i: int|
            0 <= i < n ==> Some(#[trigger] chat::turns_of(a, n)[i]) == chat::turn_of(a[i]),
    decreases n,
{
    if n > 0 {
        law_every_turn_kept(a, n - 1);
        assert(chat::turn_of(a[n - 1]) is Some);
    }
}

proof fn lemma_request_keys()
    ensures
        "messages"@.len() == 8,
        "max_tokens"@.len() == 10,
        "seed"@.len() == 4,
        "stream"@.len() == 6,
        "temperature"@.len() == 11,
        "top_p"@.len() == 5,
        "min_p"@.len() == 5,
        "top_p"@[0] == 't',
        "min_p"@[0] == 'm',
{
    reveal_strlit("messages");
    reveal_strlit("max_tokens");
    reveal_strlit("seed");
    reveal_strlit("stream");
    reveal_strlit("temperature");
    reveal_strlit("top_p");
    reveal_strlit("min_p");
}

/// A request is what its members say: the natural numbers under their keys and 1024 tokens and the
/// seed 42 where there are none, a stream exactly where that is true, and the numbers that shape the
/// draw where they are given.
pub proof fn law_request(r: ChatRequest, m: Map<Seq<char>, Json>, n: u64, b: u64)
    requires
        chat::asks(r, Json::Obj(m)),
    ensures
        m.contains_key("messages"@) && m["messages"@] is Arr,
        m["messages"@] matches Json::Arr(a) ==> chat::turn_views(r.turns@) == chat::turns_of(
            a,
            a.len() as int,
        ),
        m.contains_key("max_tokens"@) && m["max_tokens"@] == Json::Nat(n) ==> r.max_tokens
            == n as usize,
        !m.contains_key("max_tokens"@) ==> r.max_tokens == 1024,
        m.contains_key("max_tokens"@) && !(m["max_tokens"@] is Nat) ==> r.max_tokens == 1024,
        m.contains_key("seed"@) && m["seed"@] == Json::Nat(n) ==> r.seed == n,
        !m.contains_key("seed"@) ==> r.seed == 42,
        m.contains_key("seed"@) && !(m["seed"@] is Nat) ==> r.seed == 42,
        r.stream <==> m.contains_key("stream"@) && m["stream"@] == Json::Bool(true),
        m.contains_key("temperature"@) && m["temperature"@] == Json::Float(b) ==> r.temperature
            == Some(b),
        !m.contains_key("temperature"@) ==> r.temperature is None,
        m.contains_key("top_p"@) && m["top_p"@] == Json::Float(b) ==> r.top_p == Some(b),
        !m.contains_key("top_p"@) ==> r.top_p is None,
        m.contains_key("min_p"@) && m["min_p"@] == Json::Float(b) ==> r.min_p == Some(b),
        !m.contains_key("min_p"@) ==> r.min_p is None,
{
}

/// One member of a request says one thing: changing it changes nothing else that is asked for.
pub proof fn law_members_apart(q: ChatRequest, r: ChatRequest, m: Map<Seq<char>, Json>, v: Json)
    requires
        chat::asks(q, Json::Obj(m)),
    ensures
        chat::asks(r, Json::Obj(m.insert("seed"@, v))) ==> q.max_tokens == r.max_tokens && q.stream
            == r.stream && q.temperature == r.temperature && q.top_p == r.top_p && q.min_p
            == r.min_p && chat::turn_views(q.turns@) == chat::turn_views(r.turns@),
        chat::asks(r, Json::Obj(m.insert("max_tokens"@, v))) ==> q.seed == r.seed && q.stream
            == r.stream && q.temperature == r.temperature && q.top_p == r.top_p && q.min_p
            == r.min_p && chat::turn_views(q.turns@) == chat::turn_views(r.turns@),
        chat::asks(r, Json::Obj(m.insert("stream"@, v))) ==> q.seed == r.seed && q.max_tokens
            == r.max_tokens && q.temperature == r.temperature && q.top_p == r.top_p && q.min_p
            == r.min_p && chat::turn_views(q.turns@) == chat::turn_views(r.turns@),
        chat::asks(r, Json::Obj(m.insert("temperature"@, v))) ==> q.seed == r.seed && q.max_tokens
            == r.max_tokens && q.stream == r.stream && q.top_p == r.top_p && q.min_p == r.min_p
            && chat::turn_views(q.turns@) == chat::turn_views(r.turns@),
        chat::asks(r, Json::Obj(m.insert("top_p"@, v))) ==> q.seed == r.seed && q.max_tokens
            == r.max_tokens && q.stream == r.stream && q.temperature == r.temperature && q.min_p
            == r.min_p && chat::turn_views(q.turns@) == chat::turn_views(r.turns@),
        chat::asks(r, Json::Obj(m.insert("min_p"@, v))) ==> q.seed == r.seed && q.max_tokens
            == r.max_tokens && q.stream == r.stream && q.temperature == r.temperature && q.top_p
            == r.top_p && chat::turn_views(q.turns@) == chat::turn_views(r.turns@),
{
    lemma_request_keys();
}

/// A member is what an object holds under its key, and null elsewhere.
pub proof fn law_member(m: Map<Seq<char>, Json>, key: Seq<char>, v: Json, j: Json)
    ensures
        json::member_of(Json::Obj(m.insert(key, v)), key) == v,
        json::member_of(Json::Obj(m.remove(key)), key) == Json::Null,
        !(j is Obj) ==> json::member_of(j, key) == Json::Null,
{
}

/// A number of double precision is read by its bits, a whole number as the nearest one, with its
/// sign; nothing else is a number.
pub proof fn law_numbers(b: u64, j: Json)
    ensures
        json::double_in(Json::Float(b)) == Some(b),
        json::double_in(Json::Nat(0)) == Some(fp::double_of(0) as u64),
        json::double_in(j) is Some <==> j is Float || j is Nat || j is Neg,
        j matches Json::Nat(n) ==> json::double_in(j) == Some(fp::double_of(n as nat) as u64),
        j matches Json::Neg(i) ==> json::double_in(j) == Some(
            (0x8000_0000_0000_0000 + fp::double_of((-i) as nat)) as u64,
        ),
{
}

/// A setting that is given is rounded to single precision; one that is not is the default, as it is.
pub proof fn law_settings(b: u64, other: u32)
    ensures
        chat::setting(Some(b), other) == fp::narrow_of(b) as u32,
        chat::setting(None, other) == other,
{
}

/// The temperature is the one that the model asks for where it names a number, and nine tenths
/// otherwise.
pub proof fn law_temperature(m: Map<Seq<char>, Val>, x: u32)
    ensures
        m.contains_key("general.sampling.temp"@) && m["general.sampling.temp"@] == Val::F32(x)
            ==> chat::temperature_of(m) == x,
        !m.contains_key("general.sampling.temp"@) ==> chat::temperature_of(m) == 0x3f66_6666,
        m.contains_key("general.sampling.temp"@) && m["general.sampling.temp"@].to_f32() is None
            ==> chat::temperature_of(m) == 0x3f66_6666,
        m.contains_key("general.sampling.temp"@) ==> (m["general.sampling.temp"@].to_f32() matches
            Some(y) ==> chat::temperature_of(m) == y),
{
}

/// Two requests have two names.
pub proof fn law_completion_names(a: u64, b: u64)
    ensures
        chat::id_text(a) == "chatcmpl-"@ + text::decimal(a as nat),
        a != b ==> chat::id_text(a) != chat::id_text(b),
{
    let p = "chatcmpl-"@;
    text::lemma_decimal(a as nat);
    text::lemma_decimal(b as nat);
    if chat::id_text(a) == chat::id_text(b) {
        assert(chat::id_text(a).skip(p.len() as int) =~= text::decimal(a as nat));
        assert(chat::id_text(b).skip(p.len() as int) =~= text::decimal(b as nat));
    }
}

proof fn lemma_reply_keys()
    ensures
        "id"@.len() == 2,
        "object"@.len() == 6,
        "owned_by"@.len() == 8,
        "data"@.len() == 4,
        "model"@.len() == 5,
        "choices"@.len() == 7,
        "usage"@.len() == 5,
        "index"@.len() == 5,
        "delta"@.len() == 5,
        "finish_reason"@.len() == 13,
        "message"@.len() == 7,
        "role"@.len() == 4,
        "content"@.len() == 7,
        "prompt_tokens"@.len() == 13,
        "completion_tokens"@.len() == 17,
        "total_tokens"@.len() == 12,
        "model"@[0] == 'm',
        "usage"@[0] == 'u',
        "index"@[0] == 'i',
        "delta"@[0] == 'd',
{
    reveal_strlit("id");
    reveal_strlit("object");
    reveal_strlit("owned_by");
    reveal_strlit("data");
    reveal_strlit("model");
    reveal_strlit("choices");
    reveal_strlit("usage");
    reveal_strlit("index");
    reveal_strlit("delta");
    reveal_strlit("finish_reason");
    reveal_strlit("message");
    reveal_strlit("role");
    reveal_strlit("content");
    reveal_strlit("prompt_tokens");
    reveal_strlit("completion_tokens");
    reveal_strlit("total_tokens");
}

/// The only element of an array under a key.
pub open spec fn only(j: Json, key: Seq<char>) -> Json {
    match json::member_of(j, key) {
        Json::Arr(a) => if a.len() == 1 {
            a[0]
        } else {
            Json::Null
        },
        _ => Json::Null,
    }
}

/// The list of models holds the one model, by its name, owned by the server.
pub proof fn law_models_listed(name: Seq<char>)
    ensures
        ({
            let j = chat::models_tree(name);
            &&& json::member_of(j, "object"@) == Json::Str("list"@)
            &&& json::member_of(only(j, "data"@), "id"@) == Json::Str(name)
            &&& json::member_of(only(j, "data"@), "object"@) == Json::Str("model"@)
            &&& json::member_of(only(j, "data"@), "owned_by"@) == Json::Str("pulsar"@)
        }),
{
    lemma_reply_keys();
}

/// A refusal says why, under the message of its error.
pub proof fn law_refusal(message: Seq<char>)
    ensures
        json::member_of(json::member_of(chat::error_tree(message), "error"@), "message"@)
            == Json::Str(message),
{
}

/// A part of a streamed answer names the completion and the model, and holds one choice with what is
/// new and why it ends.
pub proof fn law_part(id: Seq<char>, model: Seq<char>, delta: Json, reason: Json)
    ensures
        ({
            let j = chat::chunk_tree(id, model, delta, reason);
            &&& json::member_of(j, "id"@) == Json::Str(id)
            &&& json::member_of(j, "object"@) == Json::Str("chat.completion.chunk"@)
            &&& json::member_of(j, "model"@) == Json::Str(model)
            &&& json::member_of(only(j, "choices"@), "index"@) == Json::Nat(0)
            &&& json::member_of(only(j, "choices"@), "delta"@) == delta
            &&& json::member_of(only(j, "choices"@), "finish_reason"@) == reason
        }),
{
    lemma_reply_keys();
}

/// A whole answer names the completion and the model, holds one message of the assistant with the
/// text, and counts its tokens: those of the prompt, those of the answer, and both together.
pub proof fn law_answer(
    id: Seq<char>,
    model: Seq<char>,
    content: Seq<char>,
    prompt: u64,
    completion: u64,
)
    requires
        prompt + completion <= u64::MAX,
    ensures
        ({
            let j = chat::completion_tree(id, model, content, prompt, completion);
            let c = only(j, "choices"@);
            let u = json::member_of(j, "usage"@);
            &&& json::member_of(j, "id"@) == Json::Str(id)
            &&& json::member_of(j, "object"@) == Json::Str("chat.completion"@)
            &&& json::member_of(j, "model"@) == Json::Str(model)
            &&& json::member_of(c, "index"@) == Json::Nat(0)
            &&& json::member_of(json::member_of(c, "message"@), "role"@) == Json::Str("assistant"@)
            &&& json::member_of(json::member_of(c, "message"@), "content"@) == Json::Str(content)
            &&& json::member_of(c, "finish_reason"@) == Json::Str("stop"@)
            &&& json::member_of(u, "prompt_tokens"@) == Json::Nat(prompt)
            &&& json::member_of(u, "completion_tokens"@) == Json::Nat(completion)
            &&& json::member_of(u, "total_tokens"@) matches Json::Nat(n) && n == prompt + completion
        }),
{
    lemma_reply_keys();
}

/// The message of an answer, sent back in the next request, is read as a turn of the assistant with
/// the same text.
pub proof fn law_answer_goes_back(
    id: Seq<char>,
    model: Seq<char>,
    content: Seq<char>,
    prompt: u64,
    completion: u64,
)
    ensures
        chat::turn_of(
            json::member_of(
                only(
                    chat::completion_tree(id, model, content, prompt, completion),
                    "choices"@,
                ),
                "message"@,
            ),
        ) == Some(TurnView::Assistant(content)),
{
    lemma_reply_keys();
    lemma_roles();
}

/// What is served where: the models by GET, the chat by POST, each at its path; nothing else is
/// found.
pub proof fn law_routes(method: Seq<char>, path: Seq<char>)
    ensures
        http::route_of(method, path) == Route::Models <==> method == "GET"@ && path
            == "/v1/models"@,
        http::route_of(method, path) == Route::Chat <==> method == "POST"@ && path
            == "/v1/chat/completions"@,
{
    reveal_strlit("GET");
    reveal_strlit("POST");
    assert("GET"@.len() == 3 && "POST"@.len() == 4);
}

/// A reply is a status line, a blank line and the body, whose length in bytes it announces. Only 200
/// is called OK.
pub proof fn law_reply(status: u16, body: Seq<char>)
    ensures
        status == 200 ==> http::reply_text(status, body) == "HTTP/1.1 "@ + text::decimal(200)
            + " "@ + "OK"@ + "\r\ncontent-type: application/json\r\ncontent-length: "@
            + text::decimal(encode_utf8(body).len()) + "\r\n\r\n"@ + body,
        status != 200 ==> http::reply_text(status, body) == "HTTP/1.1 "@ + text::decimal(
            status as nat,
        ) + " "@ + "Error"@ + "\r\ncontent-type: application/json\r\ncontent-length: "@
            + text::decimal(encode_utf8(body).len()) + "\r\n\r\n"@ + body,
{
}

/// An event is its data behind a fixed word, with a blank line behind it; two events do not run
/// together.
pub proof fn law_event(data: Seq<char>)
    ensures
        http::event_text(data) == "data: "@ + data + "\n\n"@,
        http::event_text(data).len() == data.len() + 8,
        http::event_text(data).subrange(6, 6 + data.len() as int) == data,
{
    reveal_strlit("data: ");
    reveal_strlit("\n\n");
    assert(http::event_text(data).subrange(6, 6 + data.len() as int) =~= data);
}

/// No character of a text is white space.
pub open spec fn solid(s: Seq<char>) -> bool {
    forall|i: int| 0 <= i < s.len() ==> !plan::is_space(#[trigger] s[i])
}

proof fn lemma_word_len(s: Seq<char>, k: int)
    requires
        0 <= k <= s.len(),
        solid(s.take(k)),
        k < s.len() ==> plan::is_space(s[k]),
    ensures
        plan::word_len(s) == k,
    decreases k,
{
    if k > 0 {
        assert(!plan::is_space(s.take(k)[0]));
        assert forall|i: int| 0 <= i < k - 1 implies !plan::is_space(
            #[trigger] s.skip(1).take(k - 1)[i],
        ) by {
            assert(s.skip(1).take(k - 1)[i] == s.take(k)[i + 1]);
        }
        lemma_word_len(s.skip(1), k - 1);
    }
}

/// White space: the blank, the tab and what ends a line are; letters, digits and slashes are not.
pub proof fn law_white_space(c: char)
    ensures
        plan::is_space(' '),
        plan::is_space('\t'),
        plan::is_space('\n'),
        plan::is_space('\r'),
        33 <= c as u32 <= 126 ==> !plan::is_space(c),
{
}

/// The method is the first word of a request line and the path the second, whatever stands behind
/// them.
pub proof fn law_request_line(method: Seq<char>, path: Seq<char>, rest: Seq<char>)
    requires
        method.len() > 0,
        path.len() > 0,
        solid(method),
        solid(path),
    ensures
        http::method_path(method + seq![' '] + path + seq![' '] + rest) == (method, path),
        http::method_path(method + seq![' '] + path) == (method, path),
        http::method_path(method) == (method, Seq::<char>::empty()),
{
    lemma_two_words(method, path, seq![' '] + rest);
    assert(method + seq![' '] + path + (seq![' '] + rest) =~= method + seq![' '] + path + seq![' ']
        + rest);
    lemma_two_words(method, path, Seq::empty());
    assert(method + seq![' '] + path + Seq::<char>::empty() =~= method + seq![' '] + path);
    assert(method.take(method.len() as int) =~= method);
    lemma_word_len(method, method.len() as int);
    assert(!plan::is_space(method[0]));
    let left = method.skip(method.len() as int);
    assert(left =~= Seq::<char>::empty());
    assert(left.take(0) =~= Seq::<char>::empty());
}

proof fn lemma_two_words(method: Seq<char>, path: Seq<char>, tail: Seq<char>)
    requires
        method.len() > 0,
        path.len() > 0,
        solid(method),
        solid(path),
        tail.len() > 0 ==> plan::is_space(tail[0]),
    ensures
        http::method_path(method + seq![' '] + path + tail) == (method, path),
{
    let s = method + seq![' '] + path + tail;
    let k = method.len() as int;
    assert(s[0] == method[0]);
    assert(!plan::is_space(method[0]));
    assert(s.take(k) =~= method);
    lemma_word_len(s, k);
    let r = s.skip(k);
    assert(r[0] == ' ');
    let t = r.skip(1);
    assert(t =~= path + tail);
    assert(t[0] == path[0]);
    assert(!plan::is_space(path[0]));
    assert(plan::trim_left(t) == t);
    assert(plan::trim_left(r) == t);
    let n = path.len() as int;
    assert(t.take(n) =~= path);
    if n < t.len() {
        assert(t[n] == tail[0]);
    }
    lemma_word_len(t, n);
}

proof fn lemma_ends_solid(s: Seq<char>)
    requires
        s.len() > 0,
        !plan::is_space(s[0]),
        !plan::is_space(s.last()),
    ensures
        words::trimmed(s) == s,
{
    assert(plan::trim_left(s) == s);
}

/// The length of the body is the number behind its header's name, in upper or lower case, with or
/// without a blank between them.
pub proof fn law_length_header(name: Seq<char>, n: usize)
    requires
        words::lowered(name) == "content-length:"@,
    ensures
        http::header_of(name + seq![' '] + text::decimal(n as nat)) == HeaderLine::Length(n),
        http::header_of(name + text::decimal(n as nat)) == HeaderLine::Length(n),
{
    lemma_length(name, seq![' '], n);
    lemma_length(name, Seq::empty(), n);
    assert(name + Seq::<char>::empty() + text::decimal(n as nat) =~= name + text::decimal(
        n as nat,
    ));
}

proof fn lemma_length(name: Seq<char>, gap: Seq<char>, n: usize)
    requires
        words::lowered(name) == "content-length:"@,
        gap == seq![' '] || gap.len() == 0,
    ensures
        http::header_of(name + gap + text::decimal(n as nat)) == HeaderLine::Length(n),
{
    reveal_strlit("content-length:");
    let d = text::decimal(n as nat);
    let s = name + gap + d;
    text::lemma_decimal(n as nat);
    assert(name.len() == 15) by {
        assert(words::lowered(name).len() == name.len());
    }
    assert(words::lowered(name)[0] == words::lower(name[0]));
    assert(words::lower(name[0]) == 'c');
    assert(!plan::is_space(name[0]));
    assert(s[0] == name[0]);
    assert(text::is_digit(d[0]));
    assert(text::is_digit(d[d.len() - 1]));
    assert(s.last() == d.last());
    lemma_ends_solid(s);
    let low = words::lowered(s);
    assert(low.subrange(0, 15) =~= words::lowered(name));
    assert(words::begins(low, http::length_name()));
    assert(low.skip(15) =~= gap + d) by {
        assert forall|i: int| 0 <= i < gap.len() + d.len() implies low.skip(15)[i] == (gap
            + d)[i] by {
            assert(low.skip(15)[i] == words::lower(s[15 + i]));
            if i >= gap.len() {
                assert(s[15 + i] == d[i - gap.len()]);
                assert(text::is_digit(d[i - gap.len()]));
            }
        }
    }
    let v = gap + d;
    if gap.len() > 0 {
        assert(v.skip(1) =~= d);
        assert(plan::trim_left(d) == d);
        assert(plan::trim_left(v) == d);
        assert(words::trimmed(v) == d);
    } else {
        assert(v =~= d);
        lemma_ends_solid(d);
    }
}

/// An empty line ends the headers, and so does one of white space only. A line that begins with
/// another character than the letter c says nothing of the length.
pub proof fn law_other_headers(line: Seq<char>)
    ensures
        words::trimmed(line).len() == 0 <==> http::header_of(line) == HeaderLine::End,
        words::trimmed(line).len() > 0 && words::lower(words::trimmed(line)[0]) != 'c'
            ==> http::header_of(line) == HeaderLine::Other,
{
    reveal_strlit("content-length:");
    let t = words::trimmed(line);
    if t.len() > 0 {
        let low = words::lowered(t);
        assert(low[0] == words::lower(t[0]));
        if words::begins(low, http::length_name()) {
            assert(low.subrange(0, 15)[0] == 'c');
        }
    }
}

proof fn lemma_server_options()
    ensures
        "-m"@.len() == 2,
        "--port"@.len() == 6,
        "--host"@.len() == 6,
        "--ctx"@.len() == 5,
        "--port"@[2] == 'p',
        "--host"@[2] == 'h',
{
    reveal_strlit("-m");
    reveal_strlit("--port");
    reveal_strlit("--host");
    reveal_strlit("--ctx");
}

/// Each option of the server sets what it names and leaves the rest; numbers fit their setting.
pub proof fn law_server_options(s: Settings, v: Seq<char>, n: nat)
    ensures
        args::taken(s, "-m"@, v) == Ok::<_, Seq<char>>((Settings { model: Some(v), ..s })),
        args::taken(s, "--host"@, v) == Ok::<_, Seq<char>>((Settings { host: v, ..s })),
        n <= 0xffff ==> args::taken(s, "--port"@, text::decimal(n)) == Ok::<_, Seq<char>>(
            (Settings { port: n as u16, ..s }),
        ),
        n > 0xffff ==> args::taken(s, "--port"@, text::decimal(n)) is Err,
        n <= 0xffff_ffff ==> args::taken(s, "--ctx"@, text::decimal(n)) == Ok::<_, Seq<char>>(
            (Settings { ctx: n as u32, ..s }),
        ),
        n > 0xffff_ffff ==> args::taken(s, "--ctx"@, text::decimal(n)) is Err,
        text::numeral(v) is None ==> args::taken(s, "--port"@, v) is Err && args::taken(
            s,
            "--ctx"@,
            v,
        ) is Err,
{
    lemma_server_options();
    text::lemma_decimal(n);
}

/// Arguments of the server are read from the left, in pairs; the model has to be named, and the rest
/// is port 11435 on 127.0.0.1 with room for 8192 tokens.
pub proof fn law_server_arguments(a: Seq<Seq<char>>, s: Settings, i: int)
    requires
        0 <= i < a.len(),
    ensures
        args::is_option(a[i]) <==> a[i] == "-m"@ || a[i] == "--port"@ || a[i] == "--host"@ || a[i]
            == "--ctx"@,
        args::is_option(a[i]) && i + 1 < a.len() ==> args::settings(a, s, i) == (match args::taken(
            s,
            a[i],
            a[i + 1],
        ) {
            Ok(t) => args::settings(a, t, i + 2),
            Err(e) => Err(e),
        }),
        args::is_option(a[i]) && i + 1 == a.len() ==> args::settings(a, s, i) == Err::<
            Settings,
            _,
        >(a[i] + " needs a value"@),
        !args::is_option(a[i]) ==> args::settings(a, s, i) == Err::<Settings, _>(
            "unknown arg "@ + a[i],
        ),
        args::settings(a, s, a.len() as int) == Ok::<_, Seq<char>>(s),
        args::defaults() == (Settings {
            model: None,
            port: 11435,
            host: "127.0.0.1"@,
            ctx: 8192,
        }),
        args::asked(Seq::empty()) == Err::<Settings, _>("missing -m MODEL.gguf"@),
        args::asked(a) matches Ok(t) ==> t.model is Some && args::settings(a, args::defaults(), 0)
            == Ok::<_, Seq<char>>(t),
        args::settings(a, args::defaults(), 0) matches Ok(t) ==> (args::asked(a) is Ok <==> t.model
            is Some),
        args::settings(a, args::defaults(), 0) is Err ==> args::asked(a) == args::settings(
            a,
            args::defaults(),
            0,
        ),
{
    lemma_server_options();
}

/// A length is the number that is written; what writes none, or one that does not fit, counts as
/// zero.
pub proof fn law_length_value(v: Seq<char>, n: nat)
    ensures
        text::numeral(v) is None ==> http::length_value(v) == 0,
        n <= usize::MAX ==> http::length_value(text::decimal(n)) == n,
        n > usize::MAX ==> http::length_value(text::decimal(n)) == 0,
{
    text::lemma_decimal(n);
}

/// A number of a request is the natural number under its key, and the other one where there is none.
pub proof fn law_natural_or(m: Map<Seq<char>, Json>, key: Seq<char>, n: u64, other: u64)
    ensures
        chat::natural_or(Json::Obj(m.insert(key, Json::Nat(n))), key, other) == n,
        chat::natural_or(Json::Obj(m.remove(key)), key, other) == other,
        chat::natural_or(Json::Obj(m.insert(key, Json::Null)), key, other) == other,
{
}

} // verus!
