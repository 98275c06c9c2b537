//! Requests and replies as text.
use vstd::prelude::*;
use vstd::slice::slice_subrange;
use vstd::utf8::*;

use crate::stream::plan;
use crate::stream::plan::{skip_space, word_end};
use crate::text;
use crate::text::{from_chars, parse_u64, push_decimal, push_str, same_str, to_chars};
use crate::words;
use crate::words::{starts_with, to_lower, trim};

verus! {

/// The first word of a text, and what comes behind it.
pub open spec fn first_word(s: Seq<char>) -> (Seq<char>, Seq<char>) {
    let t = plan::trim_left(s);
    let n = plan::word_len(t) as int;
    (t.take(n), t.skip(n))
}

/// Method and path of a request line: its first two words.
pub open spec fn method_path(line: Seq<char>) -> (Seq<char>, Seq<char>) {
    let a = first_word(line);
    (a.0, first_word(a.1).0)
}

/// Where the first word at or behind `from` begins and ends.
fn word_at(cs: &[char], from: usize) -> (r: (usize, usize))
    requires
        from <= cs@.len(),
    ensures
        from <= r.0 <= r.1 <= cs@.len(),
        first_word(cs@.skip(from as int)) == (
            cs@.subrange(r.0 as int, r.1 as int),
            cs@.skip(r.1 as int),
        ),
{
    let a: usize = skip_space(cs, from);
    let b: usize = word_end(cs, a);
    let ghost t = cs@.skip(a as int);
    assert(t.take(b - a) =~= cs@.subrange(a as int, b as int));
    assert(t.skip(b - a) =~= cs@.skip(b as int));
    (a, b)
}

/// Method and path of a request line.
pub fn request_line(line: &str) -> (r: (String, String))
    ensures
        (r.0@, r.1@) == method_path(line@),
{
    let cs = to_chars(line);
    let s = cs.as_slice();
    assert(cs@.skip(0) =~= line@);
    let (a, b) = word_at(s, 0);
    let (c, d) = word_at(s, b);
    (from_chars(slice_subrange(s, a, b)), from_chars(slice_subrange(s, c, d)))
}

/// What a header line says.
#[derive(Debug, Clone, Copy, PartialEq, Eq, Structural)]
pub enum HeaderLine {
    /// The headers end.
    End,
    /// The length of the body; zero where it cannot be read.
    Length(usize),
    Other,
}

/// The name of the header that gives the length of the body.
pub open spec fn length_name() -> Seq<char> {
    "content-length:"@
}

/// The length that a value writes; zero where it writes none.
pub open spec fn length_value(v: Seq<char>) -> usize {
    match text::numeral(v) {
        Some(n) => if n <= usize::MAX {
            n as usize
        } else {
            0
        },
        None => 0,
    }
}

/// What a header line says. Upper and lower case of its name are the same.
pub open spec fn header_of(line: Seq<char>) -> HeaderLine {
    let t = words::trimmed(line);
    if t.len() == 0 {
        HeaderLine::End
    } else if words::begins(words::lowered(t), length_name()) {
        HeaderLine::Length(
            length_value(words::trimmed(words::lowered(t).skip(length_name().len() as int))),
        )
    } else {
        HeaderLine::Other
    }
}

/// What a header line says.
pub fn header_line(line: &str) -> (r: HeaderLine)
    ensures
        r == header_of(line@),
{
    let t = trim(line);
    if t.len() == 0 {
        return HeaderLine::End;
    }
    let low = to_lower(from_chars(t.as_slice()).as_str());
    if !starts_with(low.as_str(), "content-length:") {
        return HeaderLine::Other;
    }
    proof {
        reveal_strlit("content-length:");
    }
    let cs = to_chars(low.as_str());
    let n: usize = cs.len();
    let rest = from_chars(slice_subrange(cs.as_slice(), 15, n));
    assert(rest@ =~= low@.skip(15));
    let v = trim(rest.as_str());
    let len: usize = match parse_u64(v.as_slice()) {
        Some(x) => {
            let y: usize = x as usize;
            if y as u64 == x {
                y
            } else {
                0
            }
        },
        None => 0,
    };
    HeaderLine::Length(len)
}

/// The length of the body once one more header line is read: the last line that gives one wins.
pub fn next_length(so_far: usize, line: HeaderLine) -> (r: usize)
    ensures
        r == (match line {
            HeaderLine::Length(k) => k,
            _ => so_far,
        }),
{
    match line {
        HeaderLine::Length(k) => k,
        _ => so_far,
    }
}

/// What a request asks for.
#[derive(Debug, Clone, Copy, PartialEq, Eq, Structural)]
pub enum Route {
    Models,
    Chat,
    NotFound,
}

/// What a request asks for.
pub open spec fn route_of(method: Seq<char>, path: Seq<char>) -> Route {
    if method == "GET"@ && path == "/v1/models"@ {
        Route::Models
    } else if method == "POST"@ && path == "/v1/chat/completions"@ {
        Route::Chat
    } else {
        Route::NotFound
    }
}

/// What a request asks for.
pub fn route(method: &str, path: &str) -> (r: Route)
    ensures
        r == route_of(method@, path@),
{
    if same_str(method, "GET") && same_str(path, "/v1/models") {
        Route::Models
    } else if same_str(method, "POST") && same_str(path, "/v1/chat/completions") {
        Route::Chat
    } else {
        Route::NotFound
    }
}

/// A reply with a JSON body.
pub open spec fn reply_text(status: u16, body: Seq<char>) -> Seq<char> {
    "HTTP/1.1 "@ + text::decimal(status as nat) + " "@ + (if status == 200 {
        "OK"@
    } else {
        "Error"@
    }) + "\r\ncontent-type: application/json\r\ncontent-length: "@ + text::decimal(
        encode_utf8(body).len(),
    ) + "\r\n\r\n"@ + body
}

/// A reply with a JSON body. The length is that of the body in bytes.
pub fn reply(status: u16, body: &str) -> (r: String)
    ensures
        r@ == reply_text(status, body@),
{
    let mut s = String::new();
    push_str(&mut s, "HTTP/1.1 ");
    push_decimal(&mut s, status as u64);
    push_str(&mut s, " ");
    push_str(
        &mut s,
        if status == 200 {
            "OK"
        } else {
            "Error"
        },
    );
    push_str(&mut s, "\r\ncontent-type: application/json\r\ncontent-length: ");
    let n: usize = body.as_bytes().len();
    push_decimal(&mut s, n as u64);
    push_str(&mut s, "\r\n\r\n");
    push_str(&mut s, body);
    assert(s@ =~= reply_text(status, body@));
    s
}

/// The head of a streamed reply.
pub fn stream_head() -> (r: &'static str)
    ensures
        r@
            == "HTTP/1.1 200 OK\r\ncontent-type: text/event-stream\r\ncache-control: no-cache\r\nconnection: close\r\n\r\n"@,
{
    "HTTP/1.1 200 OK\r\ncontent-type: text/event-stream\r\ncache-control: no-cache\r\nconnection: close\r\n\r\n"
}

/// The reply to a request that failed.
pub fn failure() -> (r: &'static str)
    ensures
        r@ == "HTTP/1.1 500 Internal Server Error\r\ncontent-length: 0\r\n\r\n"@,
{
    "HTTP/1.1 500 Internal Server Error\r\ncontent-length: 0\r\n\r\n"
}

/// One event of a streamed reply.
pub open spec fn event_text(data: Seq<char>) -> Seq<char> {
    "data: "@ + data + "\n\n"@
}

/// One event of a streamed reply.
pub fn event(data: &str) -> (r: String)
    ensures
        r@ == event_text(data@),
{
    let mut s = String::new();
    push_str(&mut s, "data: ");
    push_str(&mut s, data);
    push_str(&mut s, "\n\n");
    assert(s@ =~= event_text(data@));
    s
}

} // verus!
