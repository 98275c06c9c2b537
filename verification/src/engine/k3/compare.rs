//! Which intermediate results are written out for comparison, and under which names.
use vstd::prelude::*;
use vstd::slice::slice_subrange;

use super::moe::Backend;
use super::weights::{QUANT_Q2_K, QUANT_Q3_K};
use crate::engine::experts::ExpertTensor;
use crate::text;
use crate::text::{parse_u64, push_decimal, push_digits, push_hex, push_signed, push_str, same_str, to_chars};
use crate::words;
use crate::words::{split, starts_with, trim};

verus! {

/// One of the comma-separated values, without white space, passes a test.
pub open spec fn any_value(list: Seq<char>, ok: spec_fn(Seq<char>) -> bool) -> bool {
    exists|i: int|
        0 <= i < words::pieces(list, ',').len() && ok(
            words::trimmed(#[trigger] words::pieces(list, ',')[i]),
        )
}

/// The number that a value writes is `n`.
pub open spec fn writes(n: nat) -> spec_fn(Seq<char>) -> bool {
    |v: Seq<char>| text::numeral_u64(v) == Some(n as u64)
}

/// Whether one of the comma-separated values writes a number.
fn lists_number(list: &str, n: u64) -> (r: bool)
    ensures
        r == any_value(list@, writes(n as nat)),
{
    let parts = split(list, ',');
    let ghost ps = words::pieces(list@, ',');
    let mut i: usize = 0;
    while i < parts.len()
        invariant
            i <= parts@.len(),
            ps == words::strings(parts@),
            ps == words::pieces(list@, ','),
            forall|k: int| 0 <= k < i ==> !writes(n as nat)(words::trimmed(#[trigger] ps[k])),
        decreases parts@.len() - i,
    {
        assert(ps[i as int] == parts@[i as int]@);
        let v = trim(parts[i].as_str());
        if parse_u64(v.as_slice()) == Some(n) {
            assert(writes(n as nat)(words::trimmed(ps[i as int])));
            return true;
        }
        i = i + 1;
    }
    false
}

/// The signed number that a value writes.
pub open spec fn signed_numeral(v: Seq<char>) -> Option<int> {
    if v.len() > 0 && v[0] == '-' {
        let d = v.skip(1);
        if d.len() > 0 && text::all_digits(d) {
            Some(-(text::digits_value(d) as int))
        } else {
            None
        }
    } else {
        match text::numeral(v) {
            Some(n) => Some(n as int),
            None => None,
        }
    }
}

/// The value writes `e`.
pub open spec fn writes_signed(e: int) -> spec_fn(Seq<char>) -> bool {
    |v: Seq<char>| signed_numeral(v) == Some(e)
}

/// Whether a value writes `e`.
fn is_signed(v: &Vec<char>, e: i32) -> (r: bool)
    ensures
        r == writes_signed(e as int)(v@),
{
    let n: usize = v.len();
    if n > 0 && v[0] == '-' {
        if n > 1 && v[1] == '+' {
            assert(!text::is_digit(v@.skip(1)[0]));
            return false;
        }
        let rest = slice_subrange(v.as_slice(), 1, n);
        assert(rest@ =~= v@.skip(1));
        match parse_u64(rest) {
            Some(m) => m as i128 == -(e as i128),
            None => false,
        }
    } else {
        match parse_u64(v.as_slice()) {
            Some(m) => m as i128 == e as i128,
            None => false,
        }
    }
}

/// Whether one of the comma-separated values writes `e`.
fn lists_signed(list: &str, e: i32) -> (r: bool)
    ensures
        r == any_value(list@, writes_signed(e as int)),
{
    let parts = split(list, ',');
    let ghost ps = words::pieces(list@, ',');
    let mut i: usize = 0;
    while i < parts.len()
        invariant
            i <= parts@.len(),
            ps == words::strings(parts@),
            ps == words::pieces(list@, ','),
            forall|k: int| 0 <= k < i ==> !writes_signed(e as int)(words::trimmed(#[trigger] ps[k])),
        decreases parts@.len() - i,
    {
        assert(ps[i as int] == parts@[i as int]@);
        let v = trim(parts[i].as_str());
        if is_signed(&v, e) {
            assert(writes_signed(e as int)(words::trimmed(ps[i as int])));
            return true;
        }
        i = i + 1;
    }
    false
}

/// The value is one of two words.
pub open spec fn is_word(a: Seq<char>, b: Seq<char>) -> spec_fn(Seq<char>) -> bool {
    |v: Seq<char>| v == a || v == b
}

/// Whether one of the comma-separated values is one of two words.
fn lists_word(list: &str, a: &str, b: &str) -> (r: bool)
    ensures
        r == any_value(list@, is_word(a@, b@)),
{
    let parts = split(list, ',');
    let ghost ps = words::pieces(list@, ',');
    let mut i: usize = 0;
    while i < parts.len()
        invariant
            i <= parts@.len(),
            ps == words::strings(parts@),
            ps == words::pieces(list@, ','),
            forall|k: int| 0 <= k < i ==> !is_word(a@, b@)(words::trimmed(#[trigger] ps[k])),
        decreases parts@.len() - i,
    {
        assert(ps[i as int] == parts@[i as int]@);
        let v = text::from_chars(trim(parts[i].as_str()).as_slice());
        if same_str(v.as_str(), a) || same_str(v.as_str(), b) {
            assert(is_word(a@, b@)(words::trimmed(ps[i as int])));
            return true;
        }
        i = i + 1;
    }
    false
}

/// What is asked for: layers, backends, operations, ranks and experts, each as a comma-separated
/// list; no list means all.
pub struct Filters<'a> {
    /// Whether anything is asked for at all.
    pub dir: bool,
    pub layers: Option<&'a str>,
    pub backends: Option<&'a str>,
    pub operations: Option<&'a str>,
    pub ranks: Option<&'a str>,
    pub ids: Option<&'a str>,
}

impl<'a> Filters<'a> {
    /// Only the first token of a sequence is compared, in the layers asked for.
    pub open spec fn enabled(self, step: u32, layer: usize) -> bool {
        step == 0 && (self.layers matches Some(l) ==> any_value(l@, writes(layer as nat)))
    }

    pub fn k3_compare_enabled(&self, step: u32, layer: usize) -> (r: bool)
        ensures
            r == self.enabled(step, layer),
    {
        if step != 0 {
            return false;
        }
        match self.layers {
            None => true,
            Some(l) => lists_number(l, layer as u64),
        }
    }

    /// The backend is one asked for.
    pub open spec fn backend_enabled(self, b: Backend) -> bool {
        self.backends matches Some(l) ==> any_value(l@, is_word(b.text(), b.text()))
    }

    pub fn k3_compare_backend_enabled(&self, b: Backend) -> (r: bool)
        ensures
            r == self.backend_enabled(b),
    {
        match self.backends {
            None => true,
            Some(l) => lists_word(l, b.name(), b.name()),
        }
    }

    /// The operation is one asked for, or all are.
    pub open spec fn operation_enabled(self, op: Seq<char>) -> bool {
        self.operations matches Some(l) ==> any_value(l@, is_word("*"@, op))
    }

    pub fn k3_compare_operation_enabled(&self, op: &str) -> (r: bool)
        ensures
            r == self.operation_enabled(op@),
    {
        match self.operations {
            None => true,
            Some(l) => lists_word(l, "*", op),
        }
    }

    /// The layer of a step is compared on a backend.
    pub open spec fn active(self, step: u32, layer: usize, b: Backend) -> bool {
        self.dir && self.enabled(step, layer) && self.backend_enabled(b)
    }

    pub fn k3_compare_active(&self, step: u32, layer: usize, b: Backend) -> (r: bool)
        ensures
            r == self.active(step, layer, b),
    {
        self.dir && self.k3_compare_enabled(step, layer) && self.k3_compare_backend_enabled(b)
    }

    /// The expert of a rank is compared.
    pub open spec fn expert_enabled(self, rank: usize, expert: i32) -> bool {
        &&& self.ranks matches Some(l) ==> any_value(l@, writes(rank as nat))
        &&& self.ids matches Some(l) ==> any_value(l@, writes_signed(expert as int))
    }

    pub fn k3_compare_expert(&self, rank: usize, expert: i32) -> (r: bool)
        ensures
            r == self.expert_enabled(rank, expert),
    {
        let a: bool = match self.ranks {
            None => true,
            Some(l) => lists_number(l, rank as u64),
        };
        let b: bool = match self.ids {
            None => true,
            Some(l) => lists_signed(l, expert),
        };
        a && b
    }

    /// Accumulations are compared where neither ranks nor experts are singled out.
    pub fn k3_compare_accum_enabled(&self) -> (r: bool)
        ensures
            r == (self.ranks is None && self.ids is None),
    {
        self.ranks.is_none() && self.ids.is_none()
    }
}

/// The hash of the first `n` bytes.
pub open spec fn fnv(b: Seq<u8>, n: int) -> u64
    decreases n,
{
    if n <= 0 {
        0xcbf2_9ce4_8422_2325
    } else {
        (((fnv(b, n - 1) ^ b[n - 1] as u64) * 0x100_0000_01b3) % 0x1_0000_0000_0000_0000) as u64
    }
}

/// The hash of bytes, as text.
pub open spec fn fnv_text(b: Seq<u8>) -> Seq<char> {
    "fnv1a64:"@ + text::hex_digits(fnv(b, b.len() as int) as nat, 16)
}

/// The hash of bytes, as text.
pub fn k3_fnv1a(b: &[u8]) -> (r: String)
    ensures
        r@ == fnv_text(b@),
{
    let mut h: u64 = 0xcbf2_9ce4_8422_2325;
    let mut i: usize = 0;
    while i < b.len()
        invariant
            i <= b@.len(),
            h == fnv(b@, i as int),
        decreases b@.len() - i,
    {
        let x: u64 = h ^ b[i] as u64;
        let y: u128 = x as u128 * 0x100_0000_01b3u128;
        h = (y % 0x1_0000_0000_0000_0000) as u64;
        i = i + 1;
    }
    let mut s = String::new();
    push_str(&mut s, "fnv1a64:");
    push_hex(&mut s, h, 16);
    assert(s@ =~= "fnv1a64:"@ + text::hex_digits(h as nat, 16));
    s
}

/// A number in at least three digits.
pub open spec fn three(n: nat) -> Seq<char> {
    if n < 1000 {
        text::digits(n, 3)
    } else {
        text::decimal(n)
    }
}

/// Appends a number in at least three digits.
fn push_three(s: &mut String, n: u64)
    ensures
        final(s)@ == old(s)@ + three(n as nat),
{
    if n < 1000 {
        push_digits(s, n, 3);
    } else {
        push_decimal(s, n);
    }
}

/// The name of the file of an intermediate result.
pub open spec fn dump_name(kind: Seq<char>, layer: nat, name: Seq<char>, ext: Seq<char>) -> Seq<char> {
    kind + "_"@ + three(layer) + "_"@ + name + "."@ + ext
}

/// The name of the file of an intermediate result.
pub fn dump_file_name(kind: &str, layer: usize, name: &str, ext: &str) -> (r: String)
    ensures
        r@ == dump_name(kind@, layer as nat, name@, ext@),
{
    let mut s = String::new();
    push_str(&mut s, kind);
    push_str(&mut s, "_");
    push_three(&mut s, layer as u64);
    push_str(&mut s, "_");
    push_str(&mut s, name);
    push_str(&mut s, ".");
    push_str(&mut s, ext);
    assert(s@ =~= dump_name(kind@, layer as nat, name@, ext@));
    s
}

/// The name of the file of packed bytes.
pub open spec fn packed_name(layer: nat, step: u32, name: Seq<char>) -> Seq<char> {
    "layer_"@ + three(layer) + "_token_"@ + three(step as nat) + "_"@ + name + ".bin"@
}

/// The name of the file of packed bytes. Layer and token keep files of different layers apart.
pub fn packed_file_name(layer: usize, step: u32, name: &str) -> (r: String)
    ensures
        r@ == packed_name(layer as nat, step, name@),
{
    let mut s = String::new();
    push_str(&mut s, "layer_");
    push_three(&mut s, layer as u64);
    push_str(&mut s, "_token_");
    push_three(&mut s, step as u64);
    push_str(&mut s, "_");
    push_str(&mut s, name);
    push_str(&mut s, ".bin");
    assert(s@ =~= packed_name(layer as nat, step, name@));
    s
}

/// The state that an intermediate result belongs to.
pub open spec fn state_slot(kind: Seq<char>, name: Seq<char>) -> Seq<char> {
    if kind != "kda_state"@ {
        "none"@
    } else if words::begins(name, "recurrent"@) {
        "ssm"@
    } else if words::begins(name, "conv_"@) {
        name.skip("conv_"@.len() as int)
    } else {
        "unknown"@
    }
}

/// The state that an intermediate result belongs to.
pub fn state_slot_of(kind: &str, name: &str) -> (r: String)
    ensures
        r@ == state_slot(kind@, name@),
{
    let mut s = String::new();
    if !same_str(kind, "kda_state") {
        push_str(&mut s, "none");
        assert(s@ =~= "none"@);
        return s;
    }
    if starts_with(name, "recurrent") {
        push_str(&mut s, "ssm");
        assert(s@ =~= "ssm"@);
        return s;
    }
    if starts_with(name, "conv_") {
        proof {
            reveal_strlit("conv_");
        }
        let a = to_chars(name);
        let n: usize = a.len();
        let r = text::from_chars(slice_subrange(a.as_slice(), 5, n));
        assert(r@ =~= name@.skip(5));
        return r;
    }
    push_str(&mut s, "unknown");
    assert(s@ =~= "unknown"@);
    s
}

/// The line of the list of results: backend, layer, operation, shape, position, state, type, file.
pub open spec fn manifest_text(
    b: Backend,
    layer: nat,
    name: Seq<char>,
    shape: Seq<char>,
    step: u32,
    slot: Seq<char>,
    dtype: Seq<char>,
    file: Seq<char>,
) -> Seq<char> {
    "{\"backend\":\""@ + b.text() + "\",\"layer\":"@ + text::decimal(layer) + ",\"operation\":\""@
        + name + "\",\"shape\":"@ + shape + ",\"token_position\":"@ + text::decimal(step as nat)
        + ",\"state_slot\":\""@ + slot + "\",\"dtype\":\""@ + dtype + "\",\"quantization\":\""@
        + dtype + "\",\"file\":\""@ + file + "\"}\n"@
}

/// The line of the list of results.
pub fn manifest_line(
    b: Backend,
    layer: usize,
    name: &str,
    shape: &str,
    step: u32,
    slot: &str,
    dtype: &str,
    file: &str,
) -> (r: String)
    ensures
        r@ == manifest_text(b, layer as nat, name@, shape@, step, slot@, dtype@, file@),
{
    let mut s = String::new();
    push_str(&mut s, "{\"backend\":\"");
    push_str(&mut s, b.name());
    push_str(&mut s, "\",\"layer\":");
    push_decimal(&mut s, layer as u64);
    push_str(&mut s, ",\"operation\":\"");
    push_str(&mut s, name);
    push_str(&mut s, "\",\"shape\":");
    push_str(&mut s, shape);
    push_str(&mut s, ",\"token_position\":");
    push_decimal(&mut s, step as u64);
    push_str(&mut s, ",\"state_slot\":\"");
    push_str(&mut s, slot);
    push_str(&mut s, "\",\"dtype\":\"");
    push_str(&mut s, dtype);
    push_str(&mut s, "\",\"quantization\":\"");
    push_str(&mut s, dtype);
    push_str(&mut s, "\",\"file\":\"");
    push_str(&mut s, file);
    push_str(&mut s, "\"}\n");
    assert(s@ =~= manifest_text(b, layer as nat, name@, shape@, step, slot@, dtype@, file@));
    s
}

/// What a line on packed bytes says of them.
pub struct Packed<'a> {
    pub backend: Backend,
    pub layer: usize,
    pub step: u32,
    pub rank: usize,
    pub expert: i32,
    pub slot: usize,
    pub name: &'a str,
    pub dtype: &'a str,
    pub quantization: &'a str,
    pub elements: usize,
    pub block_count: usize,
    pub stride: u64,
    pub source: &'a str,
}

impl<'a> Packed<'a> {
    /// Where the bytes come from: backend, layer, token, rank, expert and slot.
    pub open spec fn place_text(self) -> Seq<char> {
        "{\"backend\":\""@ + self.backend.text() + "\",\"layer\":"@ + text::decimal(
            self.layer as nat,
        ) + ",\"token_position\":"@ + text::decimal(self.step as nat) + ",\"expert_rank\":"@
            + text::decimal(self.rank as nat) + ",\"global_expert_id\":"@ + text::signed_text(
            self.expert as int,
        ) + ",\"local_staging_slot\":"@ + text::decimal(self.slot as nat)
    }

    /// What the bytes are: operation, types, elements, blocks and stride.
    pub open spec fn kind_text(self) -> Seq<char> {
        ",\"operation\":\""@ + self.name@ + "\",\"dtype\":\""@ + self.dtype@
            + "\",\"quantization\":\""@ + self.quantization@ + "\",\"elements\":"@ + text::decimal(
            self.elements as nat,
        ) + ",\"block_count\":"@ + text::decimal(self.block_count as nat)
            + ",\"stride_bytes\":"@ + text::decimal(self.stride as nat)
    }

    /// How many bytes there are, their hash, where they come from and where they go.
    pub open spec fn bytes_text(self, bytes: Seq<u8>) -> Seq<char> {
        ",\"packed_bytes\":"@ + text::decimal(bytes.len()) + ",\"hash\":\""@ + fnv_text(bytes)
            + "\",\"source\":\""@ + self.source@ + "\",\"file\":\""@ + packed_name(
            self.layer as nat,
            self.step,
            self.name@,
        ) + "\"}\n"@
    }

    fn place(&self) -> (r: String)
        ensures
            r@ == self.place_text(),
    {
        let mut s = String::new();
        push_str(&mut s, "{\"backend\":\"");
        push_str(&mut s, self.backend.name());
        push_str(&mut s, "\",\"layer\":");
        push_decimal(&mut s, self.layer as u64);
        push_str(&mut s, ",\"token_position\":");
        push_decimal(&mut s, self.step as u64);
        push_str(&mut s, ",\"expert_rank\":");
        push_decimal(&mut s, self.rank as u64);
        push_str(&mut s, ",\"global_expert_id\":");
        push_signed(&mut s, self.expert);
        push_str(&mut s, ",\"local_staging_slot\":");
        push_decimal(&mut s, self.slot as u64);
        assert(s@ =~= self.place_text());
        s
    }

    fn kind(&self) -> (r: String)
        ensures
            r@ == self.kind_text(),
    {
        let mut s = String::new();
        push_str(&mut s, ",\"operation\":\"");
        push_str(&mut s, self.name);
        push_str(&mut s, "\",\"dtype\":\"");
        push_str(&mut s, self.dtype);
        push_str(&mut s, "\",\"quantization\":\"");
        push_str(&mut s, self.quantization);
        push_str(&mut s, "\",\"elements\":");
        push_decimal(&mut s, self.elements as u64);
        push_str(&mut s, ",\"block_count\":");
        push_decimal(&mut s, self.block_count as u64);
        push_str(&mut s, ",\"stride_bytes\":");
        push_decimal(&mut s, self.stride);
        assert(s@ =~= self.kind_text());
        s
    }

    /// The line of the list of results on packed bytes.
    pub fn line(&self, bytes: &[u8]) -> (r: String)
        ensures
            r@ == self.place_text() + self.kind_text() + self.bytes_text(bytes@),
    {
        let mut s = self.place();
        push_str(&mut s, self.kind().as_str());
        let ghost before = s@;
        push_str(&mut s, ",\"packed_bytes\":");
        push_decimal(&mut s, bytes.len() as u64);
        push_str(&mut s, ",\"hash\":\"");
        push_str(&mut s, k3_fnv1a(bytes).as_str());
        push_str(&mut s, "\",\"source\":\"");
        push_str(&mut s, self.source);
        push_str(&mut s, "\",\"file\":\"");
        push_str(&mut s, packed_file_name(self.layer, self.step, self.name).as_str());
        push_str(&mut s, "\"}\n");
        assert(s@ =~= before + self.bytes_text(bytes@));
        s
    }
}

/// How a layer that is left stands to the layer where a comparison ends.
#[derive(Debug, Clone, Copy, PartialEq, Eq, Structural)]
pub enum Boundary {
    /// It is another layer, or none is set.
    Away,
    /// It is that layer.
    Reached,
    /// It is that layer, and the token ends there, without logits.
    Stop,
}

/// Where a layer stands: `setting` names the last layer to compare, and `stop` says whether a
/// token ends there.
pub open spec fn boundary_at(setting: Option<Seq<char>>, stop: bool, layer: usize) -> Boundary {
    if setting is Some && text::numeral_u64(setting->0) == Some(layer as u64) {
        if stop {
            Boundary::Stop
        } else {
            Boundary::Reached
        }
    } else {
        Boundary::Away
    }
}

/// Tells whether a layer that is left is the last one to compare, and whether the token ends there.
pub fn k3_compare_boundary(setting: Option<&str>, stop: bool, layer: usize) -> (r: Boundary)
    ensures
        r == boundary_at(
            match setting {
                Some(s) => Some(s@),
                None => None,
            },
            stop,
            layer,
        ),
{
    match setting {
        None => Boundary::Away,
        Some(s) => if parse_u64(to_chars(s).as_slice()) == Some(layer as u64) {
            if stop {
                Boundary::Stop
            } else {
                Boundary::Reached
            }
        } else {
            Boundary::Away
        },
    }
}

/// The bytes of a block of an expert's weights: a row where the format has no known block.
pub open spec fn weight_block_bytes(t: ExpertTensor) -> u64 {
    if t.quant == QUANT_Q2_K {
        84
    } else if t.quant == QUANT_Q3_K {
        110
    } else {
        t.row_bytes
    }
}

/// The bytes of a row of an expert's weights, at least one.
pub open spec fn row_step(t: ExpertTensor) -> int {
    if t.row_bytes == 0 {
        1
    } else {
        t.row_bytes as int
    }
}

/// Blocks and elements of `len` bytes of an expert's weights.
pub fn weight_counts(t: &ExpertTensor, row_elems: usize, len: usize) -> (r: (usize, usize))
    requires
        weight_block_bytes(*t) > 0,
        (len as int / row_step(*t)) * row_elems <= usize::MAX,
    ensures
        r.0 == len as int / weight_block_bytes(*t) as int,
        r.1 == (len as int / row_step(*t)) * row_elems,
{
    let b: u64 = if t.quant == QUANT_Q2_K {
        84
    } else if t.quant == QUANT_Q3_K {
        110
    } else {
        t.row_bytes
    };
    let n: u64 = len as u64;
    let step: u64 = if t.row_bytes == 0 {
        1
    } else {
        t.row_bytes
    };
    let rows: u64 = n / step;
    let blocks: u64 = n / b;
    assert(rows <= n && blocks <= n) by (nonlinear_arith)
        requires
            rows == n / step,
            blocks == n / b,
            step > 0,
            b > 0,
    ;
    (blocks as usize, rows as usize * row_elems)
}

/// The values around a difference that are worth showing: two before and two after it.
pub fn neighbours(at: usize, a: usize, b: usize) -> (r: (usize, usize))
    requires
        at < a,
        at < b,
    ensures
        r.0 <= at < r.1 <= a,
        r.1 <= b,
        r.0 == (if at < 2 {
            0
        } else {
            at - 2
        }),
        r.1 == (if at + 3 <= a && at + 3 <= b {
            at + 3
        } else if a <= b {
            a as int
        } else {
            b as int
        }),
{
    let start: usize = if at < 2 {
        0
    } else {
        at - 2
    };
    let m: usize = if a <= b {
        a
    } else {
        b
    };
    let end: usize = if m - at >= 3 {
        at + 3
    } else {
        m
    };
    (start, end)
}

/// A value at the end of its range.
pub open spec fn is_extreme(q: i8) -> bool {
    q == 127 || q == -128
}

/// How many of the first `n` values are at the end of their range.
pub open spec fn extremes(qs: Seq<i8>, n: int) -> nat
    decreases n,
{
    if n <= 0 {
        0
    } else {
        extremes(qs, n - 1) + (if is_extreme(qs[n - 1]) {
            1nat
        } else {
            0nat
        })
    }
}

/// How many values are at the end of their range.
pub fn saturated(qs: &[i8]) -> (r: usize)
    ensures
        r == extremes(qs@, qs@.len() as int),
{
    let mut n: usize = 0;
    let mut i: usize = 0;
    while i < qs.len()
        invariant
            i <= qs@.len(),
            n <= i,
            n == extremes(qs@, i as int),
        decreases qs@.len() - i,
    {
        if qs[i] == 127 || qs[i] == -128 {
            n = n + 1;
        }
        i = i + 1;
    }
    n
}

/// The first place where two rows differ bit by bit, among those from `i` on.
pub open spec fn first_difference(a: Seq<u32>, b: Seq<u32>, i: int) -> Option<int>
    decreases a.len() - i,
{
    if i >= a.len() || i >= b.len() {
        None
    } else if a[i] != b[i] {
        Some(i)
    } else {
        first_difference(a, b, i + 1)
    }
}

/// The first place where two rows differ bit by bit.
pub fn first_mismatch(a: &[u32], b: &[u32]) -> (r: Option<usize>)
    ensures
        match r {
            Some(i) => first_difference(a@, b@, 0) == Some(i as int),
            None => first_difference(a@, b@, 0) is None,
        },
{
    let mut i: usize = 0;
    while i < a.len() && i < b.len()
        invariant
            i <= a@.len(),
            i <= b@.len(),
            first_difference(a@, b@, 0) == first_difference(a@, b@, i as int),
        decreases a@.len() - i,
    {
        if a[i] != b[i] {
            return Some(i);
        }
        i = i + 1;
    }
    None
}

} // verus!
