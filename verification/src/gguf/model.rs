//! Questions asked of a parsed header, and the merge of split headers.
use vstd::prelude::*;

use super::grammar::{Header, TensorView};
use super::parse;
use super::parse::Gguf;
use super::tensor::TensorInfo;
use super::value;
use super::value::{Val, Value};
use crate::text::{owned, push_str, same_str};

verus! {

/// Canonical K3 architecture name.
pub const K3_ARCH: &'static str = "kimi-k3";

/// Legacy metadata key of the per-layer attention names. Loaders use
/// `kimi-k3.attention.head_count_kv`.
pub const K3_ATTN_LAYER_KEY: &'static str = "kimi-k3.attention_layer";

/// Metadata key of the canonical per-layer discriminator array.
pub const K3_HEAD_COUNT_KV_KEY: &'static str = "kimi-k3.attention.head_count_kv";

/// Metadata key of the number of shared experts.
pub const K3_SHARED_EXP_KEY: &'static str = "kimi-k3.shared_expert_count";

/// The architecture that the metadata names.
pub open spec fn arch_of(m: Map<Seq<char>, Val>) -> Option<Seq<char>> {
    if m.contains_key("general.architecture"@) {
        match m["general.architecture"@] {
            Val::Str(s) => Some(s),
            _ => None,
        }
    } else {
        None
    }
}

/// The value under `<architecture>.<suffix>`.
pub open spec fn arch_value(m: Map<Seq<char>, Val>, suffix: Seq<char>) -> Option<Val> {
    match arch_of(m) {
        None => None,
        Some(a) => if m.contains_key(a + "."@ + suffix) {
            Some(m[a + "."@ + suffix])
        } else {
            None
        },
    }
}

/// The number under `<architecture>.<suffix>`.
pub open spec fn arch_number(m: Map<Seq<char>, Val>, suffix: Seq<char>) -> Option<u64> {
    match arch_value(m, suffix) {
        None => None,
        Some(v) => v.to_u64(),
    }
}

/// A table whose offsets are all moved up by `by`.
pub open spec fn shifted(ts: Seq<TensorView>, by: int) -> Seq<TensorView> {
    ts.map_values(
        |t: TensorView|
            TensorView { name: t.name, dims: t.dims, ty: t.ty, offset: (t.offset + by) as u64 },
    )
}

/// The tables of the first `n` shards behind one another, each offset moved to its place in the
/// virtual file in which shard `i` begins at `bases[i]`.
pub open spec fn merged_tables(shards: Seq<Header>, bases: Seq<u64>, n: int) -> Seq<TensorView>
    decreases n,
{
    if n <= 0 {
        Seq::empty()
    } else {
        merged_tables(shards, bases, n - 1) + shifted(
            shards[n - 1].tensors,
            bases[n - 1] + shards[n - 1].data_offset,
        )
    }
}

/// What the headers of a run of shards say.
pub open spec fn header_views(s: Seq<Gguf>) -> Seq<Header> {
    s.map_values(|g: Gguf| g@)
}

/// Every tensor of the shard has a 64-bit address in the virtual file.
pub open spec fn addressable(h: Header, base: u64) -> bool {
    forall|j: int|
        0 <= j < h.tensors.len() ==> (#[trigger] h.tensors[j]).offset + base + h.data_offset
            <= u64::MAX
}

impl Gguf {
    /// Whether every tensor of the shard has a 64-bit address in the virtual file.
    pub fn fits_at(&self, base: u64) -> (r: bool)
        ensures
            r == addressable(self@, base),
    {
        let n: usize = self.tensors.len();
        let mut j: usize = 0;
        while j < n
            invariant
                j <= n,
                n == self.tensors@.len(),
                forall|k: int|
                    0 <= k < j ==> (#[trigger] self@.tensors[k]).offset + base + self@.data_offset
                        <= u64::MAX,
            decreases n - j,
        {
            assert(self@.tensors[j as int].offset == self.tensors@[j as int].offset);
            if self.tensors[j].offset as u128 + base as u128 + self.data_offset as u128 > u64::MAX
                as u128 {
                return false;
            }
            j = j + 1;
        }
        true
    }
}

/// Moves the tensors of one shard behind those already merged.
fn append_shifted(out: &mut Vec<TensorInfo>, tensors: Vec<TensorInfo>, base: u64, data_offset: u64)
    requires
        forall|j: int|
            0 <= j < tensors@.len() ==> (#[trigger] tensors@[j]).offset + base + data_offset
                <= u64::MAX,
    ensures
        parse::table_view(final(out)@) == parse::table_view(old(out)@) + shifted(
            parse::table_view(tensors@),
            base + data_offset,
        ),
{
    let ghost all = tensors@;
    let ghost mut k: int = 0;
    let ghost start = parse::table_view(out@);
    assert(shifted(parse::table_view(all.take(0)), base + data_offset) =~= Seq::<TensorView>::empty());
    for t in it: tensors
        invariant
            it.seq() == all,
            k == it.index(),
            forall|j: int|
                0 <= j < all.len() ==> (#[trigger] all[j]).offset + base + data_offset <= u64::MAX,
            parse::table_view(out@) == start + shifted(
                parse::table_view(all.take(k)),
                base + data_offset,
            ),
    {
        let mut t = t;
        let ghost was = t;
        assert(was == all[k]);
        t.offset = t.offset + (base + data_offset);
        proof {
            let ghost next = TensorView {
                name: was.name@,
                dims: was.dims@,
                ty: was.ty,
                offset: (was.offset + (base + data_offset)) as u64,
            };
            assert(parse::info_view(t) == next);
            assert(parse::table_view(out@.push(t)) =~= parse::table_view(out@).push(next));
            assert(shifted(parse::table_view(all.take(k + 1)), base + data_offset) =~= shifted(
                parse::table_view(all.take(k)),
                base + data_offset,
            ).push(next));
            k = k + 1;
        }
        out.push(t);
        assert(parse::table_view(out@) =~= start + shifted(
            parse::table_view(all.take(k)),
            base + data_offset,
        ));
    }
    assert(all.take(k) =~= all);
}

impl Gguf {
    /// Merges split shard headers into one table over a virtual file: shard `i` begins at
    /// `bases[i]`, every tensor offset is rewritten to its virtual absolute position, and
    /// `data_offset` becomes 0. Metadata comes from shard 0.
    pub fn merge_split(shards: Vec<Gguf>, bases: &[u64]) -> (r: Gguf)
        requires
            shards@.len() == bases@.len(),
            shards@.len() > 0,
            forall|i: int|
                0 <= i < shards@.len() ==> addressable((#[trigger] shards@[i])@, bases@[i]),
        ensures
            r@ == (Header {
                tensors: merged_tables(header_views(shards@), bases@, shards@.len() as int),
                data_offset: 0,
                ..shards@[0]@
            }),
            r.metadata == shards@[0].metadata,
    {
        let ghost all = shards@;
        let ghost views = header_views(shards@);
        let mut shards = shards;
        let merged = shards.remove(0);
        let mut tensors: Vec<TensorInfo> = Vec::new();
        proof {
            assert(addressable(all[0]@, bases@[0]));
            assert forall|j: int| 0 <= j < merged.tensors@.len() implies (
            #[trigger] merged.tensors@[j]).offset + bases@[0] + merged.data_offset <= u64::MAX by {
                assert(all[0]@.tensors[j].offset == merged.tensors@[j].offset);
            }
        }
        let version: u32 = merged.version;
        let alignment: u64 = merged.alignment;
        let metadata = merged.metadata;
        append_shifted(&mut tensors, merged.tensors, bases[0], merged.data_offset);
        assert(views[0] == all[0]@);
        assert(merged_tables(views, bases@, 0) =~= Seq::<TensorView>::empty());
        assert(parse::table_view(tensors@) =~= merged_tables(views, bases@, 1));
        let n: usize = bases.len();
        let ghost rest = shards@;
        let mut k: usize = 0;
        for s in it: shards
            invariant
                it.seq() == rest,
                k == it.index(),
                rest == all.skip(1),
                rest.len() + 1 == all.len() == bases@.len() == n,
                views == header_views(all),
                forall|i: int|
                    0 <= i < all.len() ==> addressable((#[trigger] all[i])@, bases@[i]),
                parse::table_view(tensors@) == merged_tables(views, bases@, k + 1),
        {
            proof {
                assert(s == all[k + 1]);
                assert(addressable(all[k + 1]@, bases@[k + 1]));
                assert forall|j: int| 0 <= j < s.tensors@.len() implies (
                #[trigger] s.tensors@[j]).offset + bases@[k + 1] + s.data_offset <= u64::MAX by {
                    assert(all[k + 1]@.tensors[j].offset == s.tensors@[j].offset);
                }
                assert(views[k + 1] == s@);
            }
            append_shifted(&mut tensors, s.tensors, bases[k + 1], s.data_offset);
            k = k + 1;
        }
        Gguf { version, metadata, tensors, alignment, data_offset: 0 }
    }

    pub fn architecture(&self) -> (r: Option<&str>)
        ensures
            r is Some <==> arch_of(self.metadata@) is Some,
            r matches Some(s) ==> arch_of(self.metadata@) == Some(s@),
    {
        match self.metadata.get("general.architecture") {
            Some(v) => v.as_str(),
            None => None,
        }
    }

    /// Convenience: `<architecture>.<suffix>` metadata lookup.
    pub fn arch_meta(&self, suffix: &str) -> (r: Option<&Value>)
        ensures
            r is Some <==> arch_value(self.metadata@, suffix@) is Some,
            r matches Some(v) ==> arch_value(self.metadata@, suffix@) == Some(v@),
    {
        match self.architecture() {
            None => None,
            Some(arch) => {
                let mut key = String::new();
                push_str(&mut key, arch);
                push_str(&mut key, ".");
                push_str(&mut key, suffix);
                assert(key@ =~= arch@ + "."@ + suffix@);
                self.metadata.get(key.as_str())
            },
        }
    }

    /// The number under `<architecture>.<suffix>`.
    pub fn arch_u64(&self, suffix: &str) -> (r: Option<u64>)
        ensures
            r == arch_number(self.metadata@, suffix@),
    {
        match self.arch_meta(suffix) {
            None => None,
            Some(v) => v.as_u64(),
        }
    }

    /// The first tensor of a name.
    pub fn tensor(&self, name: &str) -> (r: Option<&TensorInfo>)
        ensures
            match r {
                Some(t) => exists|i: int|
                    #![trigger self.tensors@[i]]
                    0 <= i < self.tensors@.len() && *t == self.tensors@[i] && t.name@ == name@
                        && forall|j: int| 0 <= j < i ==> (#[trigger] self.tensors@[j]).name@ != name@,
                None => forall|j: int|
                    0 <= j < self.tensors@.len() ==> (#[trigger] self.tensors@[j]).name@ != name@,
            },
    {
        let mut i: usize = 0;
        while i < self.tensors.len()
            invariant
                i <= self.tensors@.len(),
                forall|j: int| 0 <= j < i ==> (#[trigger] self.tensors@[j]).name@ != name@,
            decreases self.tensors@.len() - i,
        {
            if same_str(self.tensors[i].name.as_str(), name) {
                return Some(&self.tensors[i]);
            }
            i = i + 1;
        }
        None
    }

    /// True when the architecture is the canonical K3 family name.
    pub fn is_kimi_k3(&self) -> (r: bool)
        ensures
            r == (arch_of(self.metadata@) == Some(K3_ARCH@)),
    {
        match self.architecture() {
            Some(a) => same_str(a, K3_ARCH),
            None => false,
        }
    }

    /// Number of transformer blocks.
    pub fn k3_block_count(&self) -> (r: Option<u64>)
        ensures
            r == arch_number(self.metadata@, "block_count"@),
    {
        self.arch_u64("block_count")
    }

    /// Number of routed experts.
    pub fn k3_expert_count(&self) -> (r: Option<u64>)
        ensures
            r == arch_number(self.metadata@, "expert_count"@),
    {
        self.arch_u64("expert_count")
    }

    /// Number of active experts per token.
    pub fn k3_expert_used_count(&self) -> (r: Option<u64>)
        ensures
            r == arch_number(self.metadata@, "expert_used_count"@),
    {
        self.arch_u64("expert_used_count")
    }

    /// Number of shared experts.
    pub fn k3_shared_expert_count(&self) -> (r: Option<u64>)
        ensures
            r == arch_number(self.metadata@, "shared_expert_count"@),
    {
        self.arch_u64("shared_expert_count")
    }

    /// Legacy per-layer attention names; `None` unless every element is a string.
    pub fn k3_attention_layers(&self) -> (r: Option<Vec<String>>)
        ensures
            match (r, arch_value(self.metadata@, "attention_layer"@)) {
                (Some(s), Some(Val::Array(a))) => s@.len() == a.len() && forall|i: int|
                    0 <= i < a.len() ==> #[trigger] a[i] == Val::Str(s@[i]@),
                (Some(_), _) => false,
                (None, Some(Val::Array(a))) => exists|i: int|
                    0 <= i < a.len() && !(#[trigger] a[i] is Str),
                (None, _) => true,
            },
    {
        let v = match self.arch_meta("attention_layer") {
            Some(v) => v,
            None => {
                return None;
            },
        };
        let arr = match v.as_array() {
            Some(a) => a,
            None => {
                return None;
            },
        };
        let ghost a = value::vals(arr@);
        proof {
            value::lemma_vals(arr@);
        }
        let mut out: Vec<String> = Vec::new();
        let mut i: usize = 0;
        while i < arr.len()
            invariant
                i == out@.len() <= arr@.len() == a.len(),
                forall|j: int| 0 <= j < arr@.len() ==> #[trigger] a[j] == arr@[j]@,
                forall|j: int| 0 <= j < i ==> #[trigger] a[j] == Val::Str(out@[j]@),
                arch_value(self.metadata@, "attention_layer"@) == Some(Val::Array(a)),
            decreases arr@.len() - i,
        {
            assert(a[i as int] == arr@[i as int]@);
            match arr[i].as_str() {
                Some(s) => {
                    out.push(owned(s));
                },
                None => {
                    return None;
                },
            }
            i = i + 1;
        }
        Some(out)
    }

    /// Canonical K3 per-layer discriminator: 0 = KDA, nonzero = MLA. `None` unless every element
    /// is a natural number.
    pub fn k3_head_count_kv(&self) -> (r: Option<Vec<u32>>)
        ensures
            match (r, arch_value(self.metadata@, "attention.head_count_kv"@)) {
                (Some(s), Some(Val::Array(a))) => s@.len() == a.len() && forall|i: int|
                    0 <= i < a.len() ==> #[trigger] a[i].to_u64() is Some && s@[i] == (
                    a[i].to_u64()->0 as u32),
                (Some(_), _) => false,
                (None, Some(Val::Array(a))) => exists|i: int|
                    0 <= i < a.len() && #[trigger] a[i].to_u64() is None,
                (None, _) => true,
            },
    {
        let v = match self.arch_meta("attention.head_count_kv") {
            Some(v) => v,
            None => {
                return None;
            },
        };
        let arr = match v.as_array() {
            Some(a) => a,
            None => {
                return None;
            },
        };
        let ghost a = value::vals(arr@);
        proof {
            value::lemma_vals(arr@);
        }
        let mut out: Vec<u32> = Vec::new();
        let mut i: usize = 0;
        while i < arr.len()
            invariant
                i == out@.len() <= arr@.len() == a.len(),
                forall|j: int| 0 <= j < arr@.len() ==> #[trigger] a[j] == arr@[j]@,
                forall|j: int|
                    0 <= j < i ==> #[trigger] a[j].to_u64() is Some && out@[j] == (
                    a[j].to_u64()->0 as u32),
                arch_value(self.metadata@, "attention.head_count_kv"@) == Some(Val::Array(a)),
            decreases arr@.len() - i,
        {
            assert(a[i as int] == arr@[i as int]@);
            match arr[i].as_u64() {
                Some(n) => {
                    out.push(n as u32);
                },
                None => {
                    assert(a[i as int].to_u64() is None);
                    return None;
                },
            }
            i = i + 1;
        }
        Some(out)
    }
}

/// In the merged table a tensor is addressed where its shard holds it: the address that the
/// merged header gives is the base of the shard plus the address that the shard's header gives.
pub proof fn law_merge_addresses(shards: Seq<Header>, bases: Seq<u64>, i: int, j: int) -> (k: int)
    requires
        shards.len() == bases.len(),
        0 <= i < shards.len(),
        0 <= j < shards[i].tensors.len(),
        forall|i: int| 0 <= i < shards.len() ==> addressable(#[trigger] shards[i], bases[i]),
    ensures
        ({
            let all = merged_tables(shards, bases, shards.len() as int);
            &&& 0 <= k < all.len()
            &&& all[k].name == shards[i].tensors[j].name
            &&& all[k].offset == bases[i] + shards[i].data_offset + shards[i].tensors[j].offset
        }),
{
    lemma_merge_address(shards, bases, i, j, shards.len() as int)
}

proof fn lemma_merge_address(
    shards: Seq<Header>,
    bases: Seq<u64>,
    i: int,
    j: int,
    n: int,
) -> (k: int)
    requires
        shards.len() == bases.len(),
        0 <= i < n <= shards.len(),
        0 <= j < shards[i].tensors.len(),
        addressable(shards[i], bases[i]),
    ensures
        ({
            let all = merged_tables(shards, bases, n);
            &&& 0 <= k < all.len()
            &&& all[k].name == shards[i].tensors[j].name
            &&& all[k].offset == bases[i] + shards[i].data_offset + shards[i].tensors[j].offset
        }),
    decreases n,
{
    if i < n - 1 {
        lemma_merge_address(shards, bases, i, j, n - 1)
    } else {
        assert(shards[i].tensors[j].offset + bases[i] + shards[i].data_offset <= u64::MAX);
        merged_tables(shards, bases, n - 1).len() + j
    }
}

} // verus!
