//! Importance matrices: per tensor, one weight for each input channel.
//!
//! The file holds a count, then for each entry the length of its name, the name, a number of calls,
//! a number of values and the values. All integers are 32-bit little-endian; a value is the bit
//! pattern of a single-precision number. Values are relative weights, so the number of calls does
//! not matter.
use vstd::prelude::*;
use vstd::slice::{slice_subrange, slice_to_vec};
use vstd::utf8::*;

use crate::bytes;
use crate::bytes::read_le;
use crate::text;
use crate::text::{push_decimal, push_str, same_str, string_from_utf8};

verus! {

pub const MAX_IMATRIX_ENTRIES: u32 = 1_000_000;

/// Why a file is no importance matrix.
pub enum Fault {
    Truncated,
    Count(i32),
    BadName,
}

/// The signed number that a 32-bit pattern stands for.
pub open spec fn signed(w: nat) -> int {
    if w < 0x8000_0000 {
        w as int
    } else {
        w - 0x1_0000_0000
    }
}

/// The word at `at`.
pub open spec fn word(buf: Seq<u8>, at: nat) -> Option<nat> {
    if at + 4 <= buf.len() {
        Some(bytes::le_nat(buf.subrange(at as int, at as int + 4)))
    } else {
        None
    }
}

/// `n` words at `at`.
pub open spec fn words(buf: Seq<u8>, at: nat, n: nat) -> Seq<u32> {
    Seq::new(n, |i: int| bytes::le_nat(buf.subrange(at + 4 * i, at + 4 * i + 4)) as u32)
}

/// One entry of a matrix.
pub struct EntryView {
    pub name: Seq<char>,
    pub weights: Seq<u32>,
}

/// The entry at `at`, and where the next one begins.
pub open spec fn entry(buf: Seq<u8>, at: nat) -> Result<(EntryView, nat), Fault> {
    match word(buf, at) {
        None => Err(Fault::Truncated),
        Some(len) => if signed(len) < 0 || at + 4 + len > buf.len() {
            Err(Fault::Truncated)
        } else {
            let name = buf.subrange(at as int + 4, at as int + 4 + len);
            if !valid_utf8(name) {
                Err(Fault::BadName)
            } else {
                match (word(buf, at + 4 + len), word(buf, at + 8 + len)) {
                    (Some(_), Some(n)) => if signed(n) < 0 || at + 12 + len + 4 * n > buf.len() {
                        Err(Fault::Truncated)
                    } else {
                        Ok(
                            (
                                EntryView {
                                    name: decode_utf8(name),
                                    weights: words(buf, at + 12 + len, n),
                                },
                                at + 12 + len + 4 * n,
                            ),
                        )
                    },
                    _ => Err(Fault::Truncated),
                }
            }
        },
    }
}

/// `n` entries at `at`, behind those in `acc`.
pub open spec fn entries(buf: Seq<u8>, at: nat, n: nat, acc: Seq<EntryView>) -> Result<
    Seq<EntryView>,
    Fault,
>
    decreases n,
{
    if n == 0 {
        Ok(acc)
    } else {
        match entry(buf, at) {
            Err(e) => Err(e),
            Ok((e, next)) => entries(buf, next, (n - 1) as nat, acc.push(e)),
        }
    }
}

/// The entries of a file.
pub open spec fn matrix(buf: Seq<u8>) -> Result<Seq<EntryView>, Fault> {
    match word(buf, 0) {
        None => Err(Fault::Truncated),
        Some(n) => if 0 <= signed(n) < MAX_IMATRIX_ENTRIES {
            entries(buf, 4, n, Seq::empty())
        } else {
            Err(Fault::Count(signed(n) as i32))
        },
    }
}

/// What a file says of each name: a later entry replaces an earlier one.
pub open spec fn by_name(s: Seq<EntryView>) -> Map<Seq<char>, Seq<u32>>
    decreases s.len(),
{
    if s.len() == 0 {
        Map::empty()
    } else {
        by_name(s.drop_last()).insert(s.last().name, s.last().weights)
    }
}

/// The decimal numeral of a signed number.
pub open spec fn signed_decimal(n: int) -> Seq<char> {
    if n < 0 {
        "-"@ + text::decimal((-n) as nat)
    } else {
        text::decimal(n as nat)
    }
}

/// The complaint about a fault.
pub open spec fn fault_text(f: Fault) -> Seq<char> {
    match f {
        Fault::Truncated => "imatrix truncated"@,
        Fault::Count(n) => "implausible imatrix entry count "@ + signed_decimal(n as int)
            + " (gguf-format imatrix? use the legacy .dat)"@,
        Fault::BadName => "imatrix name not utf-8"@,
    }
}

impl Fault {
    pub fn message(&self) -> (r: String)
        ensures
            r@ == fault_text(*self),
    {
        let mut s = String::new();
        match self {
            Fault::Truncated => push_str(&mut s, "imatrix truncated"),
            Fault::Count(n) => {
                push_str(&mut s, "implausible imatrix entry count ");
                let v: i64 = *n as i64;
                if v < 0 {
                    push_str(&mut s, "-");
                    push_decimal(&mut s, (-v) as u64);
                } else {
                    push_decimal(&mut s, v as u64);
                }
                push_str(&mut s, " (gguf-format imatrix? use the legacy .dat)");
            },
            Fault::BadName => push_str(&mut s, "imatrix name not utf-8"),
        }
        assert(s@ =~= fault_text(*self));
        s
    }
}

/// Weights by tensor name, in the order of the file.
pub struct Imatrix {
    pub entries: Vec<(String, Vec<u32>)>,
}

/// What a run of entries says.
pub open spec fn views(s: Seq<(String, Vec<u32>)>) -> Seq<EntryView> {
    s.map_values(|e: (String, Vec<u32>)| EntryView { name: e.0@, weights: e.1@ })
}

impl View for Imatrix {
    type V = Map<Seq<char>, Seq<u32>>;

    open spec fn view(&self) -> Map<Seq<char>, Seq<u32>> {
        by_name(views(self.entries@))
    }
}

/// The last entry of a name decides.
proof fn lemma_by_name(s: Seq<EntryView>, k: int)
    requires
        0 <= k < s.len(),
        forall|j: int| k < j < s.len() ==> (#[trigger] s[j]).name != s[k].name,
    ensures
        by_name(s).contains_key(s[k].name),
        by_name(s)[s[k].name] == s[k].weights,
    decreases s.len(),
{
    if k < s.len() - 1 {
        assert(s[s.len() - 1].name != s[k].name);
        lemma_by_name(s.drop_last(), k);
    }
}

/// A name without an entry has no weights.
proof fn lemma_no_name(s: Seq<EntryView>, name: Seq<char>)
    requires
        forall|j: int| 0 <= j < s.len() ==> (#[trigger] s[j]).name != name,
    ensures
        !by_name(s).contains_key(name),
    decreases s.len(),
{
    if s.len() > 0 {
        assert(s[s.len() - 1].name != name);
        assert forall|j: int| 0 <= j < s.drop_last().len() implies (#[trigger] s.drop_last()[j]).name
            != name by {
            assert(s[j].name != name);
        }
        lemma_no_name(s.drop_last(), name);
    }
}

impl Imatrix {
    /// The weights of a tensor.
    pub fn get(&self, name: &str) -> (r: Option<&Vec<u32>>)
        ensures
            r is Some <==> self@.contains_key(name@),
            r matches Some(w) ==> w@ == self@[name@],
    {
        let ghost vs = views(self.entries@);
        let mut i: usize = self.entries.len();
        while i > 0
            invariant
                i <= self.entries@.len(),
                vs == views(self.entries@),
                forall|j: int| i <= j < vs.len() ==> (#[trigger] vs[j]).name != name@,
            decreases i,
        {
            i = i - 1;
            assert(vs[i as int].name == self.entries@[i as int].0@);
            if same_str(self.entries[i].0.as_str(), name) {
                proof {
                    lemma_by_name(vs, i as int);
                }
                return Some(&self.entries[i].1);
            }
        }
        proof {
            lemma_no_name(vs, name@);
        }
        None
    }
}

/// Reads the word at `at`.
fn read_word(buf: &[u8], at: usize) -> (r: Option<u32>)
    ensures
        match r {
            Some(w) => word(buf@, at as nat) == Some(w as nat),
            None => word(buf@, at as nat) is None,
        },
{
    let n: usize = buf.len();
    if n < 4 || at > n - 4 {
        return None;
    }
    proof {
        bytes::lemma_pow256();
        bytes::lemma_le_bound(buf@.subrange(at as int, at + 4));
    }
    Some(read_le(slice_subrange(buf, at, at + 4)) as u32)
}

/// Reads the entry at `at`.
fn read_entry(buf: &[u8], at: usize) -> (r: Result<(String, Vec<u32>, usize), Fault>)
    requires
        at <= buf@.len(),
    ensures
        match r {
            Ok((name, w, next)) => entry(buf@, at as nat) == Ok::<_, Fault>(
                (EntryView { name: name@, weights: w@ }, next as nat),
            ) && next <= buf@.len(),
            Err(e) => entry(buf@, at as nat) == Err::<(EntryView, nat), _>(e),
        },
{
    let total: usize = buf.len();
    let len: u32 = match read_word(buf, at) {
        None => {
            return Err(Fault::Truncated);
        },
        Some(w) => w,
    };
    if len >= 0x8000_0000 || len as usize > total - at - 4 {
        return Err(Fault::Truncated);
    }
    let end: usize = at + 4 + len as usize;
    let raw = slice_subrange(buf, at + 4, end);
    let name: String = match string_from_utf8(slice_to_vec(raw)) {
        None => {
            return Err(Fault::BadName);
        },
        Some(s) => s,
    };
    proof {
        encode_utf8_decode_utf8(name@);
    }
    match read_word(buf, end) {
        None => {
            return Err(Fault::Truncated);
        },
        Some(_) => {},
    }
    let n: u32 = match read_word(buf, end + 4) {
        None => {
            return Err(Fault::Truncated);
        },
        Some(w) => w,
    };
    let from: usize = end + 8;
    if n >= 0x8000_0000 || n as usize > (total - from) / 4 {
        return Err(Fault::Truncated);
    }
    let mut w: Vec<u32> = Vec::new();
    let mut i: usize = 0;
    let ghost all = words(buf@, from as nat, n as nat);
    while i < n as usize
        invariant
            i <= n,
            total == buf@.len(),
            from + 4 * n <= total,
            all == words(buf@, from as nat, n as nat),
            w@ == all.take(i as int),
        decreases n - i,
    {
        match read_word(buf, from + 4 * i) {
            None => {},
            Some(x) => {
                w.push(x);
            },
        }
        assert(w@ =~= all.take(i + 1));
        i = i + 1;
    }
    assert(all.take(n as int) =~= all);
    Ok((name, w, from + 4 * n as usize))
}

/// Reads an importance matrix.
pub fn parse_imatrix(buf: &[u8]) -> (r: Result<Imatrix, Fault>)
    ensures
        match r {
            Ok(m) => matrix(buf@) == Ok::<_, Fault>(views(m.entries@)),
            Err(e) => matrix(buf@) == Err::<Seq<EntryView>, _>(e),
        },
{
    let n: u32 = match read_word(buf, 0) {
        None => {
            return Err(Fault::Truncated);
        },
        Some(w) => w,
    };
    if n >= MAX_IMATRIX_ENTRIES {
        let s: i32 = if n < 0x8000_0000 {
            n as i32
        } else {
            (n as i64 - 0x1_0000_0000) as i32
        };
        return Err(Fault::Count(s));
    }
    let mut out: Vec<(String, Vec<u32>)> = Vec::new();
    let mut at: usize = 4;
    let mut k: u32 = 0;
    assert(views(out@) =~= Seq::<EntryView>::empty());
    while k < n
        invariant
            k <= n,
            at <= buf@.len(),
            entries(buf@, 4, n as nat, Seq::empty()) == entries(
                buf@,
                at as nat,
                (n - k) as nat,
                views(out@),
            ),
            n < MAX_IMATRIX_ENTRIES,
            word(buf@, 0) == Some(n as nat),
        decreases n - k,
    {
        match read_entry(buf, at) {
            Err(e) => {
                return Err(e);
            },
            Ok((name, w, next)) => {
                let ghost before = views(out@);
                out.push((name, w));
                assert(views(out@) =~= before.push(EntryView { name: name@, weights: w@ }));
                at = next;
            },
        }
        k = k + 1;
    }
    Ok(Imatrix { entries: out })
}

} // verus!
