//! Searching and splitting strings.
use vstd::prelude::*;

use crate::stream::plan;
use crate::stream::plan::space;
use crate::text;
use crate::text::{from_chars, to_chars};

verus! {

/// `p` stands in `s` at `i`.
pub open spec fn stands_at(s: Seq<char>, p: Seq<char>, i: int) -> bool {
    0 <= i && i + p.len() <= s.len() && s.subrange(i, i + p.len()) == p
}

/// `p` stands somewhere in `s`.
pub open spec fn within(s: Seq<char>, p: Seq<char>) -> bool {
    exists|i: int| #[trigger] stands_at(s, p, i)
}

/// Whether `p` stands in `s` at `i`.
pub fn is_at(s: &[char], p: &[char], i: usize) -> (r: bool)
    ensures
        r == stands_at(s@, p@, i as int),
{
    let n: usize = s.len();
    let m: usize = p.len();
    if m > n || i > n - m {
        return false;
    }
    let mut k: usize = 0;
    while k < m
        invariant
            k <= m,
            m == p@.len(),
            n == s@.len(),
            i + m <= n,
            forall|j: int| 0 <= j < k ==> s@[i + j] == #[trigger] p@[j],
        decreases m - k,
    {
        if s[i + k] != p[k] {
            assert(s@.subrange(i as int, i + m)[k as int] != p@[k as int]);
            return false;
        }
        k = k + 1;
    }
    assert(s@.subrange(i as int, i + m) =~= p@);
    true
}

/// Whether a string contains another.
pub fn contains(s: &str, p: &str) -> (r: bool)
    ensures
        r == within(s@, p@),
{
    let a = to_chars(s);
    let b = to_chars(p);
    let n: usize = a.len();
    let mut i: usize = 0;
    while i < n
        invariant
            i <= n,
            n == a@.len(),
            a@ == s@,
            b@ == p@,
            forall|j: int| 0 <= j < i ==> !#[trigger] stands_at(s@, p@, j),
        decreases n - i,
    {
        if is_at(a.as_slice(), b.as_slice(), i) {
            assert(stands_at(s@, p@, i as int));
            return true;
        }
        i = i + 1;
    }
    let r: bool = is_at(a.as_slice(), b.as_slice(), n);
    assert(r ==> stands_at(s@, p@, n as int));
    r
}

/// `p` begins `s`.
pub open spec fn begins(s: Seq<char>, p: Seq<char>) -> bool {
    stands_at(s, p, 0)
}

/// Whether a string begins with another.
pub fn starts_with(s: &str, p: &str) -> (r: bool)
    ensures
        r == begins(s@, p@),
{
    let a = to_chars(s);
    let b = to_chars(p);
    is_at(a.as_slice(), b.as_slice(), 0)
}

/// The ASCII lower case of a character.
pub open spec fn lower(c: char) -> char {
    if 65 <= c as u32 <= 90 {
        (c as u32 + 32) as char
    } else {
        c
    }
}

/// A string in ASCII lower case.
pub open spec fn lowered(s: Seq<char>) -> Seq<char> {
    s.map_values(|c: char| lower(c))
}

/// A string in ASCII lower case.
pub fn to_lower(s: &str) -> (r: String)
    ensures
        r@ == lowered(s@),
{
    let a = to_chars(s);
    let mut out: Vec<char> = Vec::new();
    let mut i: usize = 0;
    while i < a.len()
        invariant
            i <= a@.len(),
            a@ == s@,
            out@ == lowered(s@).take(i as int),
        decreases a@.len() - i,
    {
        let c: char = a[i];
        let u: u32 = c as u32;
        if 65 <= u && u <= 90 {
            out.push((u as u8 + 32) as char);
        } else {
            out.push(c);
        }
        assert(out@ =~= lowered(s@).take(i + 1));
        i = i + 1;
    }
    assert(lowered(s@).take(i as int) =~= lowered(s@));
    from_chars(out.as_slice())
}

/// The pieces of a string between separators.
pub open spec fn pieces(s: Seq<char>, sep: char) -> Seq<Seq<char>>
    decreases s.len(),
{
    if s.len() == 0 {
        seq![Seq::empty()]
    } else {
        let p = pieces(s.drop_last(), sep);
        if s.last() == sep {
            p.push(Seq::empty())
        } else {
            p.drop_last().push(p.last().push(s.last()))
        }
    }
}

/// The strings of a run.
pub open spec fn strings(v: Seq<String>) -> Seq<Seq<char>> {
    v.map_values(|s: String| s@)
}

/// The pieces of a string between separators.
pub fn split(s: &str, sep: char) -> (r: Vec<String>)
    ensures
        strings(r@) == pieces(s@, sep),
        r@.len() > 0,
{
    let a = to_chars(s);
    let mut out: Vec<String> = Vec::new();
    let mut last: Vec<char> = Vec::new();
    let mut i: usize = 0;
    assert(s@.take(0) =~= Seq::<char>::empty());
    assert(strings(out@).push(last@) =~= pieces(s@.take(0), sep));
    while i < a.len()
        invariant
            i <= a@.len(),
            a@ == s@,
            strings(out@).push(last@) == pieces(s@.take(i as int), sep),
        decreases a@.len() - i,
    {
        let ghost before = strings(out@).push(last@);
        assert(s@.take(i + 1).drop_last() =~= s@.take(i as int));
        if a[i] == sep {
            let ghost o = out@;
            let piece = from_chars(last.as_slice());
            out.push(piece);
            assert(strings(out@) =~= strings(o).push(piece@));
            last = Vec::new();
            assert(strings(out@).push(last@) =~= before.push(Seq::empty()));
        } else {
            last.push(a[i]);
            assert(before.drop_last() =~= strings(out@));
        }
        i = i + 1;
    }
    assert(s@.take(i as int) =~= s@);
    let ghost o = out@;
    let piece = from_chars(last.as_slice());
    out.push(piece);
    assert(strings(out@) =~= strings(o).push(piece@));
    out
}

/// The first place of a character at or behind `i`, or the length.
pub open spec fn find(s: Seq<char>, c: char, i: int) -> int
    decreases s.len() - i,
{
    if i >= s.len() || s[i] == c {
        i
    } else {
        find(s, c, i + 1)
    }
}

/// What stands before the first separator and what behind it.
pub open spec fn cut(s: Seq<char>, sep: char) -> Option<(Seq<char>, Seq<char>)> {
    let i = find(s, sep, 0);
    if i < s.len() {
        Some((s.take(i), s.skip(i + 1)))
    } else {
        None
    }
}

/// What stands before the first separator and what behind it.
pub fn split_once(s: &str, sep: char) -> (r: Option<(String, String)>)
    ensures
        match r {
            Some((a, b)) => cut(s@, sep) == Some((a@, b@)),
            None => cut(s@, sep) is None,
        },
{
    let a = to_chars(s);
    let n: usize = a.len();
    let mut i: usize = 0;
    while i < n && a[i] != sep
        invariant
            i <= n,
            n == a@.len(),
            a@ == s@,
            find(s@, sep, 0) == find(s@, sep, i as int),
        decreases n - i,
    {
        i = i + 1;
    }
    if i == n {
        return None;
    }
    let x = from_chars(vstd::slice::slice_subrange(a.as_slice(), 0, i));
    let y = from_chars(vstd::slice::slice_subrange(a.as_slice(), i + 1, n));
    assert(x@ =~= s@.take(i as int));
    assert(y@ =~= s@.skip(i + 1));
    Some((x, y))
}

/// A string has at least one piece.
proof fn lemma_pieces_len(s: Seq<char>, sep: char)
    ensures
        pieces(s, sep).len() > 0,
    decreases s.len(),
{
    if s.len() > 0 {
        lemma_pieces_len(s.drop_last(), sep);
    }
}

/// The pieces of a string, joined by the separator.
pub open spec fn joined(p: Seq<Seq<char>>, sep: char) -> Seq<char>
    decreases p.len(),
{
    if p.len() == 0 {
        Seq::empty()
    } else if p.len() == 1 {
        p[0]
    } else {
        joined(p.drop_last(), sep).push(sep) + p.last()
    }
}

/// Joining the pieces of a string gives the string back.
pub proof fn law_split_join(s: Seq<char>, sep: char)
    ensures
        joined(pieces(s, sep), sep) == s,
    decreases s.len(),
{
    if s.len() > 0 {
        let t = s.drop_last();
        law_split_join(t, sep);
        lemma_pieces_len(t, sep);
        let p = pieces(t, sep);
        if s.last() == sep {
            let q = p.push(Seq::empty());
            assert(q.drop_last() =~= p);
            assert(joined(q, sep) =~= s);
        } else {
            let q = p.drop_last().push(p.last().push(s.last()));
            if p.len() > 1 {
                assert(q.drop_last() =~= p.drop_last());
            }
            assert(joined(q, sep) =~= joined(p, sep).push(s.last()));
            assert(t.push(s.last()) =~= s);
        }
    }
}

/// A string without the white space at its end.
pub open spec fn trim_right(s: Seq<char>) -> Seq<char>
    decreases s.len(),
{
    if s.len() > 0 && plan::is_space(s.last()) {
        trim_right(s.drop_last())
    } else {
        s
    }
}

/// A string without the white space around it.
pub open spec fn trimmed(s: Seq<char>) -> Seq<char> {
    trim_right(plan::trim_left(s))
}

/// The characters of a string without the white space around it.
pub fn trim(s: &str) -> (r: Vec<char>)
    ensures
        r@ == trimmed(s@),
{
    let a = to_chars(s);
    let n: usize = a.len();
    let mut i: usize = 0;
    assert(s@.skip(0) =~= s@);
    while i < n && space(a[i])
        invariant
            i <= n,
            n == a@.len(),
            a@ == s@,
            plan::trim_left(s@) == plan::trim_left(s@.skip(i as int)),
        decreases n - i,
    {
        assert(s@.skip(i as int)[0] == s@[i as int]);
        assert(s@.skip(i as int).skip(1) =~= s@.skip(i + 1));
        i = i + 1;
    }
    let ghost t = s@.skip(i as int);
    assert(plan::trim_left(s@) == t) by {
        if i < n {
            assert(t[0] == s@[i as int]);
        }
    }
    let mut j: usize = n;
    assert(t.take(n - i) =~= t);
    while j > i && space(a[j - 1])
        invariant
            i <= j <= n,
            n == a@.len(),
            a@ == s@,
            t == s@.skip(i as int),
            trim_right(t) == trim_right(t.take(j - i)),
        decreases j,
    {
        assert(t.take(j - i).last() == s@[j - 1]);
        assert(t.take(j - i).drop_last() =~= t.take(j - 1 - i));
        j = j - 1;
    }
    let mut out: Vec<char> = Vec::new();
    let mut k: usize = i;
    while k < j
        invariant
            i <= k <= j <= n,
            n == a@.len(),
            a@ == s@,
            out@ == s@.subrange(i as int, k as int),
        decreases j - k,
    {
        out.push(a[k]);
        assert(out@ =~= s@.subrange(i as int, k + 1));
        k = k + 1;
    }
    assert(out@ =~= t.take(j - i));
    assert(trim_right(t.take(j - i)) == t.take(j - i)) by {
        if j > i {
            assert(t.take(j - i).last() == s@[j - 1]);
        }
    }
    out
}

/// What parsing a numeral complains of: nothing to read, something that is no digit, or a number
/// above `max`, whichever comes first.
pub open spec fn numeral_fault(s: Seq<char>, max: u64) -> Seq<char> {
    if s.len() == 0 {
        "cannot parse integer from empty string"@
    } else {
        let d = if s[0] == '+' {
            s.skip(1)
        } else {
            s
        };
        if text::digits_value(d.take(digit_run(d, 0))) > max {
            "number too large to fit in target type"@
        } else {
            "invalid digit found in string"@
        }
    }
}

/// The first place at or behind `i` that holds no digit, or the length.
pub open spec fn digit_run(s: Seq<char>, i: int) -> int
    decreases s.len() - i,
{
    if i >= s.len() || !text::is_digit(s[i]) {
        i
    } else {
        digit_run(s, i + 1)
    }
}

/// What parsing a numeral of at most `max` complains of.
pub fn complain_of_numeral(s: &str, max: u64) -> (r: &'static str)
    requires
        text::numeral(s@) matches Some(v) ==> v > max,
    ensures
        r@ == numeral_fault(s@, max),
{
    let a = to_chars(s);
    let n: usize = a.len();
    if n == 0 {
        return "cannot parse integer from empty string";
    }
    let from: usize = if a[0] == '+' {
        1
    } else {
        0
    };
    let ghost d = if s@[0] == '+' {
        s@.skip(1)
    } else {
        s@
    };
    let mut v: u64 = 0;
    let mut i: usize = from;
    assert(d.take(0) =~= Seq::<char>::empty());
    while i < n
        invariant
            from <= i <= n,
            from <= 1,
            n == a@.len(),
            a@ == s@,
            d.len() == n - from,
            forall|j: int| 0 <= j < d.len() ==> #[trigger] d[j] == s@[from + j],
            digit_run(d, 0) == digit_run(d, i - from),
            v == text::digits_value(d.take(i - from)),
            v <= max,
            n > 0,
            d == if s@[0] == '+' {
                s@.skip(1)
            } else {
                s@
            },
        decreases n - i,
    {
        let u: u32 = a[i] as u32;
        assert(d[i - from] == a@[i as int]);
        if u < 48 || u > 57 {
            return "invalid digit found in string";
        }
        let x: u64 = (u - 48) as u64;
        assert(d.take(i - from + 1).drop_last() =~= d.take(i - from));
        if v as u128 * 10 + x as u128 > max as u128 {
            proof {
                lemma_run(d, i - from + 1);
                lemma_value_grows(d.take(digit_run(d, 0)), i - from + 1);
                assert(d.take(digit_run(d, 0)).take(i - from + 1) =~= d.take(i - from + 1));
            }
            return "number too large to fit in target type";
        }
        v = 10 * v + x;
        i = i + 1;
    }
    proof {
        assert(d.take(n - from) =~= d);
        lemma_run_digits(d, 0);
    }
    "invalid digit found in string"
}

/// Everything before the end of a digit run is a digit.
proof fn lemma_run_digits(s: Seq<char>, i: int)
    requires
        0 <= i,
    ensures
        forall|j: int| i <= j < digit_run(s, i) && j < s.len() ==> text::is_digit(#[trigger] s[j]),
    decreases s.len() - i,
{
    if i < s.len() && text::is_digit(s[i]) {
        lemma_run_digits(s, i + 1);
    }
}

/// A digit run ends no earlier than it starts, and not past the end.
proof fn lemma_run(s: Seq<char>, i: int)
    requires
        0 <= i <= s.len(),
    ensures
        i <= digit_run(s, i) <= s.len(),
    decreases s.len() - i,
{
    if i < s.len() && text::is_digit(s[i]) {
        lemma_run(s, i + 1);
    }
}

/// A longer run of digits does not write a smaller number.
proof fn lemma_value_grows(s: Seq<char>, k: int)
    requires
        0 <= k <= s.len(),
    ensures
        text::digits_value(s.take(k)) <= text::digits_value(s),
    decreases s.len(),
{
    if k < s.len() {
        lemma_value_grows(s.drop_last(), k);
        assert(s.drop_last().take(k) =~= s.take(k));
    } else {
        assert(s.take(k) =~= s);
    }
}

/// What is left of `s` from `i` on with every occurrence of `p` replaced by `w`, from left to right.
pub open spec fn replaced(s: Seq<char>, p: Seq<char>, w: Seq<char>, i: int) -> Seq<char>
    decreases s.len() - i,
{
    if i >= s.len() || p.len() == 0 {
        Seq::empty()
    } else if stands_at(s, p, i) {
        w + replaced(s, p, w, i + p.len())
    } else {
        seq![s[i]] + replaced(s, p, w, i + 1)
    }
}

/// A string with every occurrence of `p` replaced by `w`.
pub fn replace(s: &str, p: &str, w: &str) -> (r: String)
    requires
        p@.len() > 0,
    ensures
        r@ == replaced(s@, p@, w@, 0),
{
    let a = to_chars(s);
    let b = to_chars(p);
    let n: usize = a.len();
    let m: usize = b.len();
    let mut out = String::new();
    let mut i: usize = 0;
    assert(out@ + replaced(s@, p@, w@, 0) =~= replaced(s@, p@, w@, 0));
    while i < n
        invariant
            i <= n,
            n == a@.len(),
            m == b@.len(),
            m > 0,
            a@ == s@,
            b@ == p@,
            out@ + replaced(s@, p@, w@, i as int) == replaced(s@, p@, w@, 0),
        decreases n - i,
    {
        let ghost before = out@;
        if is_at(a.as_slice(), b.as_slice(), i) {
            text::push_str(&mut out, w);
            assert(out@ + replaced(s@, p@, w@, i + m) =~= before + (w@ + replaced(
                s@,
                p@,
                w@,
                i + m,
            )));
            i = i + m;
        } else {
            out.push(a[i]);
            assert(out@ + replaced(s@, p@, w@, i + 1) =~= before + (seq![a@[i as int]] + replaced(
                s@,
                p@,
                w@,
                i + 1,
            )));
            i = i + 1;
        }
    }
    assert(out@ =~= out@ + replaced(s@, p@, w@, i as int));
    out
}

proof fn lemma_find(s: Seq<char>, c: char, i: int)
    requires
        0 <= i <= s.len(),
    ensures
        i <= find(s, c, i) <= s.len(),
        find(s, c, i) < s.len() ==> s[find(s, c, i)] == c,
        forall|j: int| i <= j < find(s, c, i) ==> s[j] != c,
    decreases s.len() - i,
{
    if i < s.len() && s[i] != c {
        lemma_find(s, c, i + 1);
    }
}

/// A string is cut at the first separator: what stands before it holds none, and what stands behind
/// it may hold more.
pub proof fn law_cut(a: Seq<char>, b: Seq<char>, sep: char)
    requires
        !a.contains(sep),
    ensures
        cut(a + seq![sep] + b, sep) == Some((a, b)),
{
    let s = a + seq![sep] + b;
    lemma_find(s, sep, 0);
    let i = find(s, sep, 0);
    assert(s[a.len() as int] == sep);
    if i < a.len() {
        assert(s[i] == a[i]);
        assert(a.contains(sep));
    }
    assert(s.take(i) =~= a);
    assert(s.skip(i + 1) =~= b);
}

/// A string without the separator is not cut.
pub proof fn law_cut_none(s: Seq<char>, sep: char)
    requires
        !s.contains(sep),
    ensures
        cut(s, sep) is None,
{
    lemma_find(s, sep, 0);
}

/// No piece of a string holds the separator, and one more separator at the end adds an empty piece.
pub proof fn law_pieces_apart(s: Seq<char>, sep: char, i: int)
    requires
        0 <= i < pieces(s, sep).len(),
    ensures
        !pieces(s, sep)[i].contains(sep),
        pieces(s.push(sep), sep) == pieces(s, sep).push(Seq::empty()),
        pieces(Seq::empty(), sep) == seq![Seq::<char>::empty()],
    decreases s.len(),
{
    assert(s.push(sep).drop_last() =~= s);
    if s.len() > 0 {
        let t = s.drop_last();
        lemma_pieces_len(t, sep);
        let p = pieces(t, sep);
        if s.last() == sep {
            if i < p.len() {
                law_pieces_apart(t, sep, i);
            }
        } else if i < p.len() - 1 {
            law_pieces_apart(t, sep, i);
        } else {
            law_pieces_apart(t, sep, p.len() - 1);
            let q = p.last();
            assert(pieces(s, sep)[i] == q.push(s.last()));
            assert forall|j: int| 0 <= j < q.push(s.last()).len() implies q.push(s.last())[j]
                != sep by {
                if j < q.len() {
                    assert(q[j] != sep) by {
                        if q[j] == sep {
                            assert(q.contains(sep));
                        }
                    }
                }
            }
        }
    }
}

/// Lower case changes the letters A to Z, each to the letter 32 places on, and nothing else; what is
/// in lower case stays as it is.
pub proof fn law_lower_case(s: Seq<char>, i: int)
    requires
        0 <= i < s.len(),
    ensures
        lowered(s).len() == s.len(),
        65 <= s[i] as u32 <= 90 ==> lowered(s)[i] as u32 == s[i] as u32 + 32,
        !(65 <= s[i] as u32 <= 90) ==> lowered(s)[i] == s[i],
        lowered(lowered(s)) == lowered(s),
{
    assert(lowered(lowered(s)) =~= lowered(s));
}

proof fn lemma_trim_left(s: Seq<char>)
    ensures
        plan::trim_left(s).len() <= s.len(),
        s.skip(s.len() - plan::trim_left(s).len()) == plan::trim_left(s),
        forall|i: int|
            0 <= i < s.len() - plan::trim_left(s).len() ==> plan::is_space(#[trigger] s[i]),
        plan::trim_left(s).len() > 0 ==> !plan::is_space(plan::trim_left(s)[0]),
    decreases s.len(),
{
    if s.len() > 0 && plan::is_space(s[0]) {
        let r = s.skip(1);
        lemma_trim_left(r);
        let t = plan::trim_left(r);
        assert(r.skip(r.len() - t.len()) =~= s.skip(s.len() - t.len()));
        assert forall|i: int| 0 <= i < s.len() - t.len() implies plan::is_space(#[trigger] s[i]) by {
            if i > 0 {
                assert(s[i] == r[i - 1]);
            }
        }
    } else {
        assert(s.skip(0) =~= s);
    }
}

proof fn lemma_trim_right(s: Seq<char>)
    ensures
        trim_right(s).len() <= s.len(),
        s.take(trim_right(s).len() as int) == trim_right(s),
        forall|i: int| trim_right(s).len() <= i < s.len() ==> plan::is_space(#[trigger] s[i]),
        trim_right(s).len() > 0 ==> !plan::is_space(trim_right(s).last()),
    decreases s.len(),
{
    if s.len() > 0 && plan::is_space(s.last()) {
        let r = s.drop_last();
        lemma_trim_right(r);
        let t = trim_right(r);
        assert(r.take(t.len() as int) =~= s.take(t.len() as int));
        assert forall|i: int| t.len() <= i < s.len() implies plan::is_space(#[trigger] s[i]) by {
            if i < s.len() - 1 {
                assert(s[i] == r[i]);
            }
        }
    } else {
        assert(s.take(s.len() as int) =~= s);
    }
}

/// Trimming takes off white space at both ends and nothing else: what is left neither begins nor ends
/// with any, and what is taken off is nothing but white space.
pub proof fn law_trimmed(s: Seq<char>) -> (r: (Seq<char>, Seq<char>))
    ensures
        s == r.0 + trimmed(s) + r.1,
        forall|i: int| 0 <= i < r.0.len() ==> plan::is_space(#[trigger] r.0[i]),
        forall|i: int| 0 <= i < r.1.len() ==> plan::is_space(#[trigger] r.1[i]),
        trimmed(s).len() > 0 ==> !plan::is_space(trimmed(s)[0]) && !plan::is_space(
            trimmed(s).last(),
        ),
{
    let t = plan::trim_left(s);
    let u = trimmed(s);
    lemma_trim_left(s);
    lemma_trim_right(t);
    let k = s.len() - t.len();
    let a = s.take(k);
    let b = t.skip(u.len() as int);
    assert(s =~= a + u + b);
    assert forall|i: int| 0 <= i < b.len() implies plan::is_space(#[trigger] b[i]) by {
        assert(b[i] == t[u.len() + i]);
    }
    if u.len() > 0 {
        assert(t.take(u.len() as int)[0] == t[0]);
    }
    (a, b)
}

/// Replacing a word by itself changes nothing, and neither does replacing one that does not occur.
pub proof fn law_replaced(s: Seq<char>, p: Seq<char>, w: Seq<char>, i: int)
    requires
        0 <= i <= s.len(),
        p.len() > 0,
    ensures
        replaced(s, p, p, i) == s.skip(i),
        (forall|j: int| i <= j ==> !#[trigger] stands_at(s, p, j)) ==> replaced(s, p, w, i)
            == s.skip(i),
    decreases s.len() - i,
{
    if i < s.len() {
        if stands_at(s, p, i) {
            law_replaced(s, p, w, i + p.len());
            assert(p + s.skip(i + p.len()) =~= s.skip(i));
        } else {
            law_replaced(s, p, w, i + 1);
            assert(seq![s[i]] + s.skip(i + 1) =~= s.skip(i));
        }
    } else {
        assert(s.skip(i) =~= Seq::<char>::empty());
    }
}

/// Where a word stands, the other takes its place, and replacing goes on behind it; elsewhere
/// characters stay.
pub proof fn law_replaced_here(s: Seq<char>, p: Seq<char>, w: Seq<char>, i: int)
    requires
        0 <= i < s.len(),
        p.len() > 0,
    ensures
        stands_at(s, p, i) ==> replaced(s, p, w, i) == w + replaced(s, p, w, i + p.len()),
        !stands_at(s, p, i) ==> replaced(s, p, w, i) == seq![s[i]] + replaced(s, p, w, i + 1),
{
}

/// What is wrong with a numeral: nothing there, too large, or something that is no digit.
pub proof fn law_numeral_faults(n: nat, max: u64)
    ensures
        numeral_fault(Seq::empty(), max) == "cannot parse integer from empty string"@,
        n > max ==> numeral_fault(text::decimal(n), max)
            == "number too large to fit in target type"@,
        numeral_fault(seq!['x'], max) == "invalid digit found in string"@,
{
    let d = text::decimal(n);
    text::lemma_decimal(n);
    assert(text::is_digit(d[0]));
    lemma_run_all(d, 0);
    assert(d.take(d.len() as int) =~= d);
    let x = seq!['x'];
    assert(x.take(0) =~= Seq::<char>::empty());
}

proof fn lemma_run_all(s: Seq<char>, i: int)
    requires
        0 <= i <= s.len(),
        text::all_digits(s),
    ensures
        digit_run(s, i) == s.len(),
    decreases s.len() - i,
{
    if i < s.len() {
        assert(text::is_digit(s[i]));
        lemma_run_all(s, i + 1);
    }
}

} // verus!
