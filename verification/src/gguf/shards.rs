//! Names of the parts of a split model.
use vstd::prelude::*;
use vstd::slice::slice_subrange;

use crate::text;
use crate::text::{from_chars, parse_u64, push_digits, push_str, to_chars};

verus! {

/// The prefix and the part count of a file name of the form `<prefix>-00001-of-<count>.gguf`,
/// where the count is written with five decimal digits and is at least 2.
pub open spec fn first_part(name: Seq<char>) -> Option<(Seq<char>, u32)> {
    let n = name.len();
    let d = name.subrange(n - 10, n - 5);
    if n >= 20 && name.subrange(n - 5, n as int) == ".gguf"@ && name.subrange(n - 20, n - 10)
        == "-00001-of-"@ && text::all_digits(d) && text::digits_value(d) >= 2 {
        Some((name.take(n - 20), text::digits_value(d) as u32))
    } else {
        None
    }
}

/// The name of part `i` of `count`.
pub open spec fn part_name(prefix: Seq<char>, i: nat, count: nat) -> Seq<char> {
    prefix + "-"@ + text::digits(i, 5) + "-of-"@ + text::digits(count, 5) + ".gguf"@
}

/// Whether a run of characters stands in another at a place.
fn stands_at(cs: &Vec<char>, at: usize, part: &str) -> (r: bool)
    requires
        at + part@.len() <= cs@.len(),
    ensures
        r == (cs@.subrange(at as int, at + part@.len()) == part@),
{
    let ps = to_chars(part);
    let n: usize = cs.len();
    let ghost w = cs@.subrange(at as int, at + part@.len());
    let mut i: usize = 0;
    while i < ps.len()
        invariant
            i <= ps@.len(),
            ps@ == part@,
            at + ps@.len() <= cs@.len() == n,
            w == cs@.subrange(at as int, at + part@.len()),
            forall|j: int| 0 <= j < i ==> #[trigger] w[j] == ps@[j],
        decreases ps@.len() - i,
    {
        assert(w[i as int] == cs@[at + i]);
        if cs[at + i] != ps[i] {
            return false;
        }
        i = i + 1;
    }
    assert(w =~= part@);
    true
}

/// The first part of a split model is the file whose name was expanded.
pub proof fn law_first_part(name: Seq<char>)
    ensures
        first_part(name) matches Some((prefix, count)) ==> part_name(prefix, 1, count as nat)
            == name,
{
    if first_part(name) is Some {
        let n = name.len();
        let d = name.subrange(n - 10, n - 5);
        reveal_strlit(".gguf");
        reveal_strlit("-00001-of-");
        reveal_strlit("-");
        reveal_strlit("-of-");
        text::lemma_digits_value(d);
        assert(text::digits(1, 5) == seq!['0', '0', '0', '0', '1']) by {
            reveal_with_fuel(text::digits, 6);
            assert(text::digits(1, 5) =~= seq!['0', '0', '0', '0', '1']);
        }
        let m = name.subrange(n - 20, n - 10);
        assert("-"@ + text::digits(1, 5) + "-of-"@ =~= m);
        assert(name =~= name.take(n - 20) + m + d + name.subrange(n - 5, n as int));
        assert(part_name(name.take(n - 20), 1, text::digits_value(d)) =~= name.take(n - 20) + m + d
            + ".gguf"@);
    }
}

/// Expands a file name `...-00001-of-000NN.gguf` to the full list of part names, without asking
/// whether they exist; `None` when the name does not follow the split convention.
pub fn split_shard_names(name: &str) -> (r: Option<Vec<String>>)
    ensures
        match (r, first_part(name@)) {
            (Some(v), Some((prefix, count))) => v@.len() == count && forall|i: int|
                0 <= i < count ==> (#[trigger] v@[i])@ == part_name(
                    prefix,
                    (i + 1) as nat,
                    count as nat,
                ),
            (None, None) => true,
            _ => false,
        },
{
    proof {
        reveal_strlit(".gguf");
        reveal_strlit("-00001-of-");
    }
    let cs = to_chars(name);
    let n: usize = cs.len();
    if n < 20 {
        return None;
    }
    if !stands_at(&cs, n - 5, ".gguf") || !stands_at(&cs, n - 20, "-00001-of-") {
        return None;
    }
    let ghost d = name@.subrange(n - 10, n - 5);
    assert(d[0] == cs@[n - 10]);
    if cs[n - 10] == '+' {
        assert(!text::is_digit(d[0]));
        return None;
    }
    let count: u64 = match parse_u64(slice_subrange(cs.as_slice(), n - 10, n - 5)) {
        Some(c) => c,
        None => {
            proof {
                if text::all_digits(d) {
                    text::lemma_digits_value(d);
                }
            }
            return None;
        },
    };
    proof {
        text::lemma_digits_value(d);
    }
    if count < 2 {
        return None;
    }
    let prefix = from_chars(slice_subrange(cs.as_slice(), 0, n - 20));
    assert(prefix@ =~= name@.take(n - 20));
    let mut out: Vec<String> = Vec::new();
    let mut i: u64 = 1;
    while i <= count
        invariant
            1 <= i <= count + 1,
            count <= u32::MAX,
            out@.len() == i - 1,
            forall|j: int|
                0 <= j < i - 1 ==> (#[trigger] out@[j])@ == part_name(
                    prefix@,
                    (j + 1) as nat,
                    count as nat,
                ),
        decreases count + 1 - i,
    {
        let mut s = prefix.clone();
        push_str(&mut s, "-");
        push_digits(&mut s, i, 5);
        push_str(&mut s, "-of-");
        push_digits(&mut s, count, 5);
        push_str(&mut s, ".gguf");
        assert(s@ =~= part_name(prefix@, i as nat, count as nat));
        out.push(s);
        i = i + 1;
    }
    Some(out)
}

/// Expands a file name `...-00001-of-000NN.gguf` to the full list of part names, all of which
/// must exist; `None` when one does not or the name does not follow the split convention.
pub fn split_shards<F: Fn(&String) -> bool>(name: &str, exists_file: F) -> (r: Option<Vec<String>>)
    requires
        forall|s: &String| call_requires(exists_file, (s,)),
    ensures
        match (r, first_part(name@)) {
            (Some(v), Some((prefix, count))) => v@.len() == count && forall|i: int|
                0 <= i < count ==> (#[trigger] v@[i])@ == part_name(
                    prefix,
                    (i + 1) as nat,
                    count as nat,
                ) && call_ensures(exists_file, (&v@[i],), true),
            (None, Some((prefix, count))) => exists|s: String, i: int|
                0 <= i < count && #[trigger] s@ == #[trigger] part_name(
                    prefix,
                    (i + 1) as nat,
                    count as nat,
                ) && call_ensures(exists_file, (&s,), false),
            (None, None) => true,
            _ => false,
        },
{
    let out = match split_shard_names(name) {
        Some(v) => v,
        None => {
            return None;
        },
    };
    let mut i: usize = 0;
    while i < out.len()
        invariant
            i <= out@.len(),
            forall|s: &String| call_requires(exists_file, (s,)),
            forall|j: int| 0 <= j < i ==> call_ensures(exists_file, (&#[trigger] out@[j],), true),
            first_part(name@) matches Some((prefix, count)) && out@.len() == count && forall|i: int|
                0 <= i < count ==> (#[trigger] out@[i])@ == part_name(
                    prefix,
                    (i + 1) as nat,
                    count as nat,
                ),
        decreases out@.len() - i,
    {
        if !exists_file(&out[i]) {
            return None;
        }
        i = i + 1;
    }
    Some(out)
}

} // verus!
