//! The metadata that a rewritten file takes over.
use vstd::prelude::*;
use vstd::utf8::*;

use crate::gguf::encode;
use crate::gguf::value;
use crate::gguf::value::Val;
use crate::gguf::writer;
use crate::gguf::{Metadata, Value};
use crate::text::{from_chars, to_chars};
use crate::words;
use crate::words::starts_with;

verus! {

/// `a` comes before `b`, byte by byte.
pub open spec fn before(a: Seq<u8>, b: Seq<u8>) -> bool
    decreases a.len(),
{
    if b.len() == 0 {
        false
    } else if a.len() == 0 {
        true
    } else {
        a[0] < b[0] || (a[0] == b[0] && before(a.skip(1), b.skip(1)))
    }
}

/// A key comes before another.
pub open spec fn key_before(a: Seq<char>, b: Seq<char>) -> bool {
    before(encode_utf8(a), encode_utf8(b))
}

proof fn lemma_before_trans(a: Seq<u8>, b: Seq<u8>, c: Seq<u8>)
    requires
        before(a, b),
        before(b, c),
    ensures
        before(a, c),
    decreases a.len(),
{
    if a.len() > 0 && a[0] == b[0] && b[0] == c[0] {
        lemma_before_trans(a.skip(1), b.skip(1), c.skip(1));
    }
}

proof fn lemma_before_total(a: Seq<u8>, b: Seq<u8>)
    ensures
        a == b || before(a, b) || before(b, a),
        !before(a, a),
    decreases a.len(),
{
    if a.len() > 0 {
        lemma_before_total(a.skip(1), if b.len() > 0 {
            b.skip(1)
        } else {
            b
        });
        if b.len() > 0 && a[0] == b[0] && a.skip(1) == b.skip(1) {
            assert(a =~= seq![a[0]] + a.skip(1));
            assert(b =~= seq![b[0]] + b.skip(1));
        }
    } else if b.len() == 0 {
        assert(a =~= b);
    }
}

/// Keys are ordered strictly and totally.
pub proof fn law_key_order(a: Seq<char>, b: Seq<char>, c: Seq<char>)
    ensures
        !key_before(a, a),
        a == b || key_before(a, b) || key_before(b, a),
        key_before(a, b) && key_before(b, c) ==> key_before(a, c),
{
    let x = encode_utf8(a);
    let y = encode_utf8(b);
    lemma_before_total(x, y);
    encode_utf8_decode_utf8(a);
    encode_utf8_decode_utf8(b);
    if key_before(a, b) && key_before(b, c) {
        lemma_before_trans(x, y, encode_utf8(c));
    }
}

/// Whether a key comes before another.
fn comes_before(a: &str, b: &str) -> (r: bool)
    ensures
        r == key_before(a@, b@),
{
    let x = a.as_bytes();
    let y = b.as_bytes();
    let n: usize = x.len();
    let m: usize = y.len();
    let mut i: usize = 0;
    assert(x@.skip(0) =~= x@);
    assert(y@.skip(0) =~= y@);
    while i < n && i < m
        invariant
            i <= n,
            i <= m,
            n == x@.len(),
            m == y@.len(),
            before(x@, y@) == before(x@.skip(i as int), y@.skip(i as int)),
            x@ == encode_utf8(a@),
            y@ == encode_utf8(b@),
        decreases n - i,
    {
        assert(x@.skip(i as int)[0] == x@[i as int]);
        assert(y@.skip(i as int)[0] == y@[i as int]);
        if x[i] < y[i] {
            return true;
        }
        if x[i] > y[i] {
            return false;
        }
        assert(x@.skip(i as int).skip(1) =~= x@.skip(i + 1));
        assert(y@.skip(i as int).skip(1) =~= y@.skip(i + 1));
        i = i + 1;
    }
    i < m
}

/// The keys ascend.
pub open spec fn ascending(m: Seq<(Seq<char>, Val)>) -> bool {
    forall|i: int, j: int| 0 <= i < j < m.len() ==> key_before(#[trigger] m[i].0, #[trigger] m[j].0)
}

/// An entry of a split file's bookkeeping.
pub open spec fn is_split_key(k: Seq<char>) -> bool {
    words::begins(k, "split."@)
}

/// The metadata without the bookkeeping of a split file.
pub open spec fn carried(m: Map<Seq<char>, Val>) -> Map<Seq<char>, Val> {
    Map::new(|k: Seq<char>| m.contains_key(k) && !is_split_key(k), |k: Seq<char>| m[k])
}

/// No key occurs twice.
spec fn distinct(m: Seq<(Seq<char>, Val)>) -> bool {
    forall|i: int, j: int| 0 <= i < j < m.len() ==> #[trigger] m[i].0 != #[trigger] m[j].0
}

proof fn lemma_table(s: Seq<(Seq<char>, Val)>)
    requires
        distinct(s),
    ensures
        forall|i: int|
            0 <= i < s.len() ==> encode::table_of(s).contains_key((#[trigger] s[i]).0)
                && encode::table_of(s)[s[i].0] == s[i].1,
        forall|k: Seq<char>| #[trigger]
            encode::table_of(s).contains_key(k) ==> exists|i: int|
                0 <= i < s.len() && (#[trigger] s[i]).0 == k,
    decreases s.len(),
{
    if s.len() > 0 {
        let t = s.drop_last();
        assert forall|i: int, j: int| 0 <= i < j < t.len() implies #[trigger] t[i].0
            != #[trigger] t[j].0 by {
            assert(s[i].0 != s[j].0);
        }
        lemma_table(t);
        assert forall|i: int| 0 <= i < s.len() implies encode::table_of(s).contains_key(
            (#[trigger] s[i]).0,
        ) && encode::table_of(s)[s[i].0] == s[i].1 by {
            if i < s.len() - 1 {
                assert(t[i] == s[i]);
                assert(s[i].0 != s[s.len() - 1].0);
            }
        }
        assert forall|k: Seq<char>| #[trigger] encode::table_of(s).contains_key(k) implies exists|i: int|
            0 <= i < s.len() && (#[trigger] s[i]).0 == k by {
            if k == s.last().0 {
                assert(s[s.len() - 1].0 == k);
            } else {
                assert(encode::table_of(t).contains_key(k));
                let i = choose|i: int| 0 <= i < t.len() && (#[trigger] t[i]).0 == k;
                assert(s[i].0 == k);
            }
        }
    }
}

proof fn lemma_entries_table(s: Seq<(String, Value)>)
    ensures
        value::entries_map(s) == encode::table_of(writer::entry_views(s)),
    decreases s.len(),
{
    let v = writer::entry_views(s);
    if s.len() > 0 {
        lemma_entries_table(s.drop_last());
        assert(v.drop_last() =~= writer::entry_views(s.drop_last()));
    }
}

proof fn lemma_ascending_distinct(m: Seq<(Seq<char>, Val)>)
    requires
        ascending(m),
    ensures
        distinct(m),
{
    assert forall|i: int, j: int| 0 <= i < j < m.len() implies #[trigger] m[i].0 != #[trigger] m[j].0 by {
        law_key_order(m[i].0, m[j].0, m[j].0);
    }
}

/// A run holds what it held and what was put in.
proof fn lemma_insert_contains<A>(s: Seq<A>, p: int, x: A)
    requires
        0 <= p <= s.len(),
    ensures
        forall|y: A| #[trigger] s.insert(p, x).contains(y) <==> s.contains(y) || y == x,
{
    let t = s.insert(p, x);
    assert forall|y: A| #[trigger] t.contains(y) <==> s.contains(y) || y == x by {
        if t.contains(y) {
            let i = choose|i: int| 0 <= i < t.len() && t[i] == y;
            if i < p {
                assert(s[i] == y);
            } else if i > p {
                assert(s[i - 1] == y);
            }
        }
        if s.contains(y) {
            let i = choose|i: int| 0 <= i < s.len() && s[i] == y;
            if i < p {
                assert(t[i] == y);
            } else {
                assert(t[i + 1] == y);
            }
        }
        if y == x {
            assert(t[p] == y);
        }
    }
}

/// Where a key belongs among ascending ones.
fn place_of(out: &Vec<(String, Value)>, key: &str) -> (p: usize)
    requires
        ascending(writer::entry_views(out@)),
        forall|i: int| 0 <= i < out@.len() ==> (#[trigger] out@[i]).0@ != key@,
    ensures
        p <= out@.len(),
        forall|i: int| 0 <= i < p ==> key_before((#[trigger] out@[i]).0@, key@),
        forall|i: int| p <= i < out@.len() ==> key_before(key@, (#[trigger] out@[i]).0@),
{
    let n: usize = out.len();
    let mut p: usize = 0;
    let ghost vs = writer::entry_views(out@);
    while p < n && comes_before(out[p].0.as_str(), key)
        invariant
            p <= n,
            n == out@.len(),
            forall|i: int| 0 <= i < p ==> key_before((#[trigger] out@[i]).0@, key@),
        decreases n - p,
    {
        p = p + 1;
    }
    proof {
        if p < n {
            law_key_order(key@, out@[p as int].0@, key@);
            assert forall|i: int| p <= i < out@.len() implies key_before(
                key@,
                (#[trigger] out@[i]).0@,
            ) by {
                assert(vs[p as int].0 == out@[p as int].0@ && vs[i].0 == out@[i].0@);
                law_key_order(key@, out@[p as int].0@, out@[i].0@);
            }
        }
    }
    p
}

/// Puts an entry in its place.
fn put(out: &mut Vec<(String, Value)>, key: String, v: Value)
    requires
        ascending(writer::entry_views(old(out)@)),
        forall|i: int| 0 <= i < old(out)@.len() ==> (#[trigger] old(out)@[i]).0@ != key@,
    ensures
        ascending(writer::entry_views(final(out)@)),
        forall|y: (Seq<char>, Val)| #[trigger]
            writer::entry_views(final(out)@).contains(y) <==> writer::entry_views(
                old(out)@,
            ).contains(y) || y == (key@, value::val(v)),
{
    let p: usize = place_of(out, key.as_str());
    let ghost vs = writer::entry_views(out@);
    let ghost x = (key@, value::val(v));
    out.insert(p, (key, v));
    let ghost ws = writer::entry_views(out@);
    proof {
        assert(ws =~= vs.insert(p as int, x));
        lemma_insert_contains(vs, p as int, x);
        assert forall|i: int, j: int| 0 <= i < j < ws.len() implies key_before(
            #[trigger] ws[i].0,
            #[trigger] ws[j].0,
        ) by {
            let a = if i < p {
                i
            } else {
                i - 1
            };
            let b = if j < p {
                j
            } else {
                j - 1
            };
            if i != p && j != p {
                assert(key_before(vs[a].0, vs[b].0));
            } else if i == p {
                assert(key_before(x.0, old(out)@[b].0@));
            } else {
                assert(key_before(old(out)@[a].0@, x.0));
            }
        }
    }
}

/// The entries that a rewritten file takes over, in the order of their keys.
pub fn carry(meta: &Metadata) -> (r: Vec<(String, Value)>)
    ensures
        ascending(writer::entry_views(r@)),
        encode::table_of(writer::entry_views(r@)) == carried(meta@),
{
    let entries = meta.entries();
    let ghost ys = writer::entry_views(entries@);
    let mut out: Vec<(String, Value)> = Vec::new();
    let mut i: usize = 0;
    assert(writer::entry_views(out@) =~= Seq::<(Seq<char>, Val)>::empty());
    while i < entries.len()
        invariant
            i <= entries@.len(),
            value::distinct_keys(entries@),
            ys == writer::entry_views(entries@),
            ascending(writer::entry_views(out@)),
            forall|y: (Seq<char>, Val)| #[trigger]
                writer::entry_views(out@).contains(y) <==> ys.take(i as int).contains(y)
                    && !is_split_key(y.0),
        decreases entries@.len() - i,
    {
        let e = &entries[i];
        let ghost y0 = ys[i as int];
        let ghost vs = writer::entry_views(out@);
        proof {
            assert(y0 == (e.0@, value::val(e.1)));
            assert forall|y: (Seq<char>, Val)| #[trigger] ys.take(i + 1).contains(y) <==> ys.take(
                i as int,
            ).contains(y) || y == y0 by {
                let t = ys.take(i + 1);
                if t.contains(y) {
                    let k = choose|k: int| 0 <= k < t.len() && t[k] == y;
                    if k < i {
                        assert(ys.take(i as int)[k] == y);
                    }
                }
                if ys.take(i as int).contains(y) {
                    let k = choose|k: int| 0 <= k < i && ys.take(i as int)[k] == y;
                    assert(t[k] == y);
                }
                assert(t[i as int] == y0);
            }
        }
        if !starts_with(e.0.as_str(), "split.") {
            proof {
                assert forall|j: int| 0 <= j < out@.len() implies (#[trigger] out@[j]).0@ != e.0@ by {
                    assert(vs[j] == (out@[j].0@, value::val(out@[j].1)));
                    assert(vs.contains(vs[j]));
                    let t = ys.take(i as int);
                    let k = choose|k: int| 0 <= k < t.len() && t[k] == vs[j];
                    assert(entries@[k].0@ != entries@[i as int].0@);
                }
            }
            let key = from_chars(to_chars(e.0.as_str()).as_slice());
            put(&mut out, key, e.1.clone());
        }
        i = i + 1;
    }
    proof {
        assert(ys.take(i as int) =~= ys);
        let vs = writer::entry_views(out@);
        lemma_carried(entries@, vs);
    }
    out
}

proof fn lemma_carried(s: Seq<(String, Value)>, vs: Seq<(Seq<char>, Val)>)
    requires
        value::distinct_keys(s),
        ascending(vs),
        forall|y: (Seq<char>, Val)| #[trigger]
            vs.contains(y) <==> writer::entry_views(s).contains(y) && !is_split_key(y.0),
    ensures
        encode::table_of(vs) == carried(value::entries_map(s)),
{
    let ys = writer::entry_views(s);
    assert forall|i: int, j: int| 0 <= i < j < ys.len() implies #[trigger] ys[i].0
        != #[trigger] ys[j].0 by {
        assert(s[i].0@ != s[j].0@);
    }
    lemma_entries_table(s);
    lemma_table(ys);
    lemma_ascending_distinct(vs);
    lemma_table(vs);
    let a = encode::table_of(vs);
    let m = value::entries_map(s);
    let b = carried(m);
    assert forall|k: Seq<char>| a.contains_key(k) <==> #[trigger] b.contains_key(k) by {
        if a.contains_key(k) {
            let i = choose|i: int| 0 <= i < vs.len() && (#[trigger] vs[i]).0 == k;
            assert(vs.contains(vs[i]));
            let j = choose|j: int| 0 <= j < ys.len() && ys[j] == vs[i];
            assert(m.contains_key(ys[j].0));
        }
        if b.contains_key(k) {
            let j = choose|j: int| 0 <= j < ys.len() && (#[trigger] ys[j]).0 == k;
            assert(ys.contains(ys[j]));
            assert(vs.contains(ys[j]));
            let i = choose|i: int| 0 <= i < vs.len() && vs[i] == ys[j];
            assert(a.contains_key(vs[i].0));
        }
    }
    assert forall|k: Seq<char>| #[trigger] a.contains_key(k) implies a[k] == b[k] by {
        let i = choose|i: int| 0 <= i < vs.len() && (#[trigger] vs[i]).0 == k;
        assert(vs.contains(vs[i]));
        let j = choose|j: int| 0 <= j < ys.len() && ys[j] == vs[i];
        assert(m[ys[j].0] == ys[j].1);
        assert(b.contains_key(k));
    }
    assert(a =~= b);
}

} // verus!
