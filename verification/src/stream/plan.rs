//! Reads and their text form: one `offset length` line each.
use vstd::prelude::*;
use vstd::slice::slice_subrange;

use crate::text;
use crate::text::{from_chars, parse_u64, push_decimal, push_str, to_chars};

verus! {

/// One disk read at an absolute virtual-file offset.
#[derive(Debug, Clone, Copy, PartialEq, Eq, Structural)]
pub struct Read {
    pub offset: u64,
    pub len: u64,
}

/// The line of a read.
pub open spec fn line_text(r: Read) -> Seq<char> {
    text::decimal(r.offset as nat) + " "@ + text::decimal(r.len as nat) + "\n"@
}

/// The lines of a run of reads.
pub open spec fn plan_text(reads: Seq<Read>) -> Seq<char>
    decreases reads.len(),
{
    if reads.len() == 0 {
        Seq::empty()
    } else {
        line_text(reads[0]) + plan_text(reads.skip(1))
    }
}

/// A character with the Unicode property White_Space.
pub open spec fn is_space(c: char) -> bool {
    let u = c as u32;
    ||| 9 <= u <= 13
    ||| u == 32
    ||| u == 0x85
    ||| u == 0xa0
    ||| u == 0x1680
    ||| 0x2000 <= u <= 0x200a
    ||| u == 0x2028
    ||| u == 0x2029
    ||| u == 0x202f
    ||| u == 0x205f
    ||| u == 0x3000
}

/// What is left behind leading white space.
pub open spec fn trim_left(s: Seq<char>) -> Seq<char>
    decreases s.len(),
{
    if s.len() > 0 && is_space(s[0]) {
        trim_left(s.skip(1))
    } else {
        s
    }
}

/// Number of leading characters that are not white space.
pub open spec fn word_len(s: Seq<char>) -> nat
    decreases s.len(),
{
    if s.len() == 0 || is_space(s[0]) {
        0
    } else {
        1 + word_len(s.skip(1))
    }
}

/// What a line of a plan says.
pub enum Line {
    Blank,
    Bad,
    Entry(Read),
}

/// A line: blank, or two numerals separated by white space and followed by anything.
pub open spec fn line_of(l: Seq<char>) -> Line {
    let t = trim_left(l);
    if t.len() == 0 {
        Line::Blank
    } else {
        let t2 = trim_left(t.skip(word_len(t) as int));
        match (
            text::numeral_u64(t.take(word_len(t) as int)),
            text::numeral_u64(t2.take(word_len(t2) as int)),
        ) {
            (Some(offset), Some(len)) => Line::Entry(Read { offset, len }),
            _ => Line::Bad,
        }
    }
}

/// Number of characters before the first line feed.
pub open spec fn line_len(s: Seq<char>) -> nat
    decreases s.len(),
{
    if s.len() == 0 || s[0] == '\n' {
        0
    } else {
        1 + line_len(s.skip(1))
    }
}

/// The first line, without its ending: a line feed, or a carriage return and a line feed.
pub open spec fn first_line(s: Seq<char>) -> Seq<char> {
    let n = line_len(s) as int;
    if 0 < n < s.len() && s[n - 1] == '\r' {
        s.take(n - 1)
    } else {
        s.take(n)
    }
}

/// What is left behind the first line.
pub open spec fn other_lines(s: Seq<char>) -> Seq<char> {
    let n = line_len(s) as int;
    if n < s.len() {
        s.skip(n + 1)
    } else {
        Seq::empty()
    }
}

/// The reads of a plan, behind those in `acc`, or its first bad line.
pub open spec fn plan(s: Seq<char>, acc: Seq<Read>) -> Result<Seq<Read>, Seq<char>>
    decreases s.len(),
    via plan_shrinks
{
    if s.len() == 0 {
        Ok(acc)
    } else {
        match line_of(first_line(s)) {
            Line::Blank => plan(other_lines(s), acc),
            Line::Bad => Err(first_line(s)),
            Line::Entry(r) => plan(other_lines(s), acc.push(r)),
        }
    }
}

#[via_fn]
proof fn plan_shrinks(s: Seq<char>, acc: Seq<Read>) {
    lemma_line_len(s);
}

proof fn lemma_line_len(s: Seq<char>)
    ensures
        line_len(s) <= s.len(),
        forall|i: int| 0 <= i < line_len(s) ==> #[trigger] s[i] != '\n',
        line_len(s) < s.len() ==> s[line_len(s) as int] == '\n',
    decreases s.len(),
{
    if s.len() > 0 && s[0] != '\n' {
        lemma_line_len(s.skip(1));
        assert forall|i: int| 0 <= i < line_len(s) implies #[trigger] s[i] != '\n' by {
            if i > 0 {
                assert(s[i] == s.skip(1)[i - 1]);
            }
        }
    }
}

/// The first line feed fixes the length of the first line.
pub proof fn lemma_line_len_is(s: Seq<char>, n: int)
    requires
        0 <= n <= s.len(),
        forall|i: int| 0 <= i < n ==> #[trigger] s[i] != '\n',
        n < s.len() ==> s[n] == '\n',
    ensures
        line_len(s) == n,
    decreases s.len(),
{
    if n > 0 {
        assert(s[0] != '\n');
        assert forall|i: int| 0 <= i < n - 1 implies #[trigger] s.skip(1)[i] != '\n' by {
            assert(s[i + 1] != '\n');
        }
        lemma_line_len_is(s.skip(1), n - 1);
    }
}

/// Writes a plan.
pub fn plan_to_string(reads: &[Read]) -> (r: String)
    ensures
        r@ == plan_text(reads@),
{
    let mut out = String::new();
    let mut i: usize = 0;
    assert(reads@.take(0) =~= Seq::<Read>::empty());
    while i < reads.len()
        invariant
            i <= reads@.len(),
            out@ == plan_text(reads@.take(i as int)),
        decreases reads@.len() - i,
    {
        push_decimal(&mut out, reads[i].offset);
        push_str(&mut out, " ");
        push_decimal(&mut out, reads[i].len);
        push_str(&mut out, "\n");
        proof {
            lemma_plan_text_push(reads@.take(i as int), reads@[i as int]);
            assert(reads@.take(i + 1) =~= reads@.take(i as int).push(reads@[i as int]));
            assert(out@ =~= plan_text(reads@.take(i as int)) + line_text(reads@[i as int]));
        }
        i = i + 1;
    }
    assert(reads@.take(i as int) =~= reads@);
    out
}

proof fn lemma_plan_text_push(a: Seq<Read>, r: Read)
    ensures
        plan_text(a.push(r)) == plan_text(a) + line_text(r),
    decreases a.len(),
{
    if a.len() == 0 {
        assert(a.push(r).skip(1) =~= Seq::<Read>::empty());
        assert(plan_text(Seq::<Read>::empty()) =~= Seq::<char>::empty());
        assert(a.push(r)[0] == r);
        assert(plan_text(a.push(r)) =~= plan_text(a) + line_text(r));
    } else {
        lemma_plan_text_push(a.skip(1), r);
        assert(a.push(r).skip(1) =~= a.skip(1).push(r));
        assert(plan_text(a.push(r)) =~= plan_text(a) + line_text(r));
    }
}

/// Whether a character has the Unicode property White_Space.
pub fn space(c: char) -> (r: bool)
    ensures
        r == is_space(c),
{
    let u: u32 = c as u32;
    (9 <= u && u <= 13) || u == 32 || u == 0x85 || u == 0xa0 || u == 0x1680 || (0x2000 <= u && u
        <= 0x200a) || u == 0x2028 || u == 0x2029 || u == 0x202f || u == 0x205f || u == 0x3000
}

/// Where the white space from `from` on ends.
pub fn skip_space(cs: &[char], from: usize) -> (r: usize)
    requires
        from <= cs@.len(),
    ensures
        from <= r <= cs@.len(),
        trim_left(cs@.skip(from as int)) == cs@.skip(r as int),
{
    let mut i: usize = from;
    while i < cs.len() && space(cs[i])
        invariant
            from <= i <= cs@.len(),
            trim_left(cs@.skip(from as int)) == trim_left(cs@.skip(i as int)),
        decreases cs@.len() - i,
    {
        assert(cs@.skip(i as int).skip(1) =~= cs@.skip(i + 1));
        i = i + 1;
    }
    i
}

/// Where the word that begins at `from` ends.
pub fn word_end(cs: &[char], from: usize) -> (r: usize)
    requires
        from <= cs@.len(),
    ensures
        from <= r <= cs@.len(),
        word_len(cs@.skip(from as int)) == r - from,
{
    let mut i: usize = from;
    while i < cs.len() && !space(cs[i])
        invariant
            from <= i <= cs@.len(),
            word_len(cs@.skip(from as int)) == i - from + word_len(cs@.skip(i as int)),
        decreases cs@.len() - i,
    {
        assert(cs@.skip(i as int).skip(1) =~= cs@.skip(i + 1));
        i = i + 1;
    }
    i
}

/// Reads one line.
fn read_line(cs: &[char]) -> (r: Line)
    ensures
        r == line_of(cs@),
{
    assert(cs@.skip(0) =~= cs@);
    let a: usize = skip_space(cs, 0);
    if a == cs.len() {
        return Line::Blank;
    }
    let b: usize = word_end(cs, a);
    let c: usize = skip_space(cs, b);
    let d: usize = word_end(cs, c);
    proof {
        let t = cs@.skip(a as int);
        assert(t.take(b - a) =~= cs@.subrange(a as int, b as int));
        assert(t.skip(b - a) =~= cs@.skip(b as int));
        assert(cs@.skip(c as int).take(d - c) =~= cs@.subrange(c as int, d as int));
    }
    match parse_u64(slice_subrange(cs, a, b)) {
        None => Line::Bad,
        Some(offset) => match parse_u64(slice_subrange(cs, c, d)) {
            None => Line::Bad,
            Some(len) => Line::Entry(Read { offset, len }),
        },
    }
}

/// The complaint about a line that is no read.
pub open spec fn bad_line_text(line: Seq<char>) -> Seq<char> {
    "bad plan line: "@ + line
}

/// Reads a plan. Blank lines are skipped; the first line that does not begin with two numerals is
/// reported.
pub fn plan_from_str(s: &str) -> (r: Result<Vec<Read>, String>)
    ensures
        match r {
            Ok(v) => plan(s@, Seq::empty()) == Ok::<_, Seq<char>>(v@),
            Err(e) => plan(s@, Seq::empty()) matches Err(line) && e@ == bad_line_text(line),
        },
{
    let cs = to_chars(s);
    let mut out: Vec<Read> = Vec::new();
    let mut at: usize = 0;
    assert(cs@.skip(0) =~= s@);
    while at < cs.len()
        invariant
            at <= cs@.len(),
            cs@ == s@,
            plan(s@, Seq::empty()) == plan(cs@.skip(at as int), out@),
        decreases cs@.len() - at,
    {
        let ghost here = cs@.skip(at as int);
        let mut n: usize = at;
        while n < cs.len() && cs[n] != '\n'
            invariant
                at <= n <= cs@.len(),
                here == cs@.skip(at as int),
                forall|i: int| 0 <= i < n - at ==> #[trigger] here[i] != '\n',
            decreases cs@.len() - n,
        {
            n = n + 1;
        }
        proof {
            lemma_line_len_is(here, n - at);
        }
        let stop: usize = if n > at && n < cs.len() && cs[n - 1] == '\r' {
            n - 1
        } else {
            n
        };
        let line = slice_subrange(cs.as_slice(), at, stop);
        assert(line@ =~= first_line(here));
        let next: usize = if n < cs.len() {
            n + 1
        } else {
            n
        };
        assert(cs@.skip(next as int) =~= other_lines(here));
        match read_line(line) {
            Line::Blank => {},
            Line::Bad => {
                let mut msg = String::new();
                push_str(&mut msg, "bad plan line: ");
                push_str(&mut msg, from_chars(line).as_str());
                assert(msg@ =~= bad_line_text(line@));
                return Err(msg);
            },
            Line::Entry(r) => {
                out.push(r);
            },
        }
        at = next;
    }
    assert(cs@.skip(at as int) =~= Seq::<char>::empty());
    Ok(out)
}

/// A run of decimal digits is one word without white space.
proof fn lemma_word(s: Seq<char>, k: int)
    requires
        0 <= k <= s.len(),
        text::all_digits(s.take(k)),
        k < s.len() ==> is_space(s[k]),
    ensures
        word_len(s) == k,
    decreases k,
{
    if k > 0 {
        assert(text::is_digit(s.take(k)[0]));
        assert(s.skip(1).take(k - 1) =~= s.take(k).skip(1));
        assert forall|i: int| 0 <= i < k - 1 implies text::is_digit(
            #[trigger] s.skip(1).take(k - 1)[i],
        ) by {
            assert(text::is_digit(s.take(k)[i + 1]));
        }
        lemma_word(s.skip(1), k - 1);
    }
}

/// Reading the line of a read gives the read.
proof fn lemma_line(r: Read, rest: Seq<char>)
    ensures
        first_line(line_text(r) + rest) == text::decimal(r.offset as nat) + " "@ + text::decimal(
            r.len as nat,
        ),
        other_lines(line_text(r) + rest) == rest,
        line_of(
            text::decimal(r.offset as nat) + " "@ + text::decimal(r.len as nat),
        ) == Line::Entry(r),
{
    reveal_strlit(" ");
    reveal_strlit("\n");
    let a = text::decimal(r.offset as nat);
    let b = text::decimal(r.len as nat);
    text::lemma_decimal(r.offset as nat);
    text::lemma_decimal(r.len as nat);
    let l = a + " "@ + b;
    let s = line_text(r) + rest;
    let n = a.len() + 1 + b.len();
    assert forall|i: int| 0 <= i < n implies #[trigger] s[i] != '\n' by {
        if i < a.len() {
            assert(text::is_digit(a[i]));
        } else if i > a.len() {
            assert(s[i] == b[i - a.len() - 1]);
            assert(text::is_digit(b[i - a.len() - 1]));
        }
    }
    assert(s[n as int] == '\n');
    lemma_line_len_is(s, n as int);
    assert(text::is_digit(b[b.len() - 1]));
    assert(s[n - 1] == b[b.len() - 1]);
    assert(first_line(s) =~= l);
    assert(other_lines(s) =~= rest);
    assert(text::is_digit(a[0]));
    assert(l[0] == a[0]);
    assert(trim_left(l) == l);
    assert(l.take(a.len() as int) =~= a);
    lemma_word(l, a.len() as int);
    let u = l.skip(a.len() as int);
    assert(u[0] == ' ');
    assert(u.skip(1) =~= b);
    assert(text::is_digit(b[0]));
    assert(trim_left(b) == b);
    assert(trim_left(u) == b);
    assert(b.take(b.len() as int) =~= b);
    lemma_word(b, b.len() as int);
}

proof fn lemma_plan_roundtrip(reads: Seq<Read>, acc: Seq<Read>)
    ensures
        plan(plan_text(reads), acc) == Ok::<_, Seq<char>>(acc + reads),
    decreases reads.len(),
{
    if reads.len() == 0 {
        assert(acc + reads =~= acc);
    } else {
        lemma_line(reads[0], plan_text(reads.skip(1)));
        lemma_plan_roundtrip(reads.skip(1), acc.push(reads[0]));
        assert(acc.push(reads[0]) + reads.skip(1) =~= acc + reads);
        reveal_strlit("\n");
        assert(plan_text(reads).len() > 0);
    }
}

/// Reading back a written plan gives its reads.
pub proof fn law_plan_roundtrip(reads: Seq<Read>)
    ensures
        plan(plan_text(reads), Seq::empty()) == Ok::<_, Seq<char>>(reads),
{
    lemma_plan_roundtrip(reads, Seq::empty());
    assert(Seq::<Read>::empty() + reads =~= reads);
}

} // verus!
