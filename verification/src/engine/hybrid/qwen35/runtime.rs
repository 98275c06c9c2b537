//! Sizes of the runtime's buffers.
use vstd::prelude::*;

use super::layer::RING_CAP;
use crate::engine::hybrid::shape::Shape;

verus! {

/// A layer runs the delta rule, and not attention.
pub open spec fn is_gdn(s: Shape, il: int) -> bool {
    (il + 1) % s.full_attn_interval as int != 0
}

/// Which layers have a delta-rule state.
pub open spec fn states_of(s: Shape, n: nat) -> Seq<bool> {
    Seq::new(n, |il: int| is_gdn(s, il))
}

/// Which layers have a delta-rule state.
pub fn gdn_layers(s: &Shape) -> (r: Vec<bool>)
    requires
        s.n_exec_layer > 0 ==> s.full_attn_interval > 0,
    ensures
        r@ == states_of(*s, s.n_exec_layer as nat),
{
    let mut v: Vec<bool> = Vec::new();
    let mut il: u32 = 0;
    while il < s.n_exec_layer
        invariant
            il <= s.n_exec_layer,
            s.n_exec_layer > 0 ==> s.full_attn_interval > 0,
            v@ == states_of(*s, il as nat),
        decreases s.n_exec_layer - il,
    {
        v.push((il + 1) % s.full_attn_interval != 0);
        assert(v@ =~= states_of(*s, (il + 1) as nat));
        il = il + 1;
    }
    v
}

/// Of every `full_attn_interval` layers in a row, exactly the last attends.
pub proof fn law_interval(s: Shape, block: int, k: int)
    requires
        0 <= block,
        0 <= k < s.full_attn_interval,
    ensures
        is_gdn(s, block * s.full_attn_interval + k) <==> k < s.full_attn_interval - 1,
{
    let n = s.full_attn_interval as int;
    if k == n - 1 {
        assert(block * n + n == (block + 1) * n) by (nonlinear_arith);
        vstd::arithmetic::div_mod::lemma_fundamental_div_mod_converse(
            block * n + k + 1,
            n,
            block + 1,
            0,
        );
    } else {
        vstd::arithmetic::div_mod::lemma_fundamental_div_mod_converse(
            block * n + k + 1,
            n,
            block,
            k + 1,
        );
    }
}

/// Bytes of the buffers of the runtime.
#[derive(Debug, Clone, Copy, PartialEq, Eq, Structural)]
pub struct Sizes {
    /// Raw and convolved projections.
    pub qkv: u64,
    /// Queries and keys of the delta rule.
    pub key: u64,
    /// Values of the delta rule, its output and its gate.
    pub value: u64,
    /// Decays and write strengths.
    pub small: u64,
    /// Queries with their gates, and the gates alone.
    pub qfull: u64,
    pub gate: u64,
    /// Gate of the shared expert.
    pub shg: u64,
}

/// Bytes of the delta-rule state and of the convolution window of a layer that has them.
pub fn state_sizes(s: &Shape) -> (r: (u64, u64))
    requires
        s.wf_states(),
        s.key_dim() <= u32::MAX,
        s.value_dim() <= u32::MAX,
    ensures
        r.0 == 4 * (s.ssm_v_heads * s.ssm_state * s.ssm_state),
        r.1 == 4 * ((s.ssm_conv_k - 1) * s.conv_dim()),
{
    assert(0 <= s.key_dim() && 0 <= s.value_dim() && 0 <= s.value_dim() * s.ssm_state && 0 <= (
    s.ssm_conv_k - 1) * s.conv_dim()) by (nonlinear_arith)
        requires
            s.key_dim() == s.ssm_k_heads * s.ssm_state,
            s.value_dim() == s.ssm_v_heads * s.ssm_state,
            s.conv_dim() == 2 * s.key_dim() + s.value_dim(),
            s.ssm_conv_k > 0,
    ;
    let key: u64 = s.ssm_k_heads as u64 * s.ssm_state as u64;
    let value: u64 = s.ssm_v_heads as u64 * s.ssm_state as u64;
    let conv: u64 = 2 * key + value;
    (4 * (value * s.ssm_state as u64), 4 * ((s.ssm_conv_k - 1) as u64 * conv))
}

/// Bytes of the buffers of the runtime, for chunks of sixteen tokens.
pub fn runtime_sizes(s: &Shape) -> (r: Sizes)
    requires
        s.key_dim() <= u32::MAX,
        s.value_dim() <= u32::MAX,
        s.n_head * s.head_dim <= u32::MAX,
    ensures
        r.qkv == 64 * s.conv_dim(),
        r.key == 64 * s.key_dim(),
        r.value == 64 * s.value_dim(),
        r.small == 64 * s.ssm_v_heads,
        r.qfull == 64 * (2 * (s.n_head * s.head_dim)),
        r.gate == 64 * (s.n_head * s.head_dim),
        r.shg == 64,
{
    assert(0 <= s.key_dim() && 0 <= s.value_dim() && 0 <= s.n_head * s.head_dim)
        by (nonlinear_arith)
        requires
            s.key_dim() == s.ssm_k_heads * s.ssm_state,
            s.value_dim() == s.ssm_v_heads * s.ssm_state,
    ;
    let key: u64 = s.ssm_k_heads as u64 * s.ssm_state as u64;
    let value: u64 = s.ssm_v_heads as u64 * s.ssm_state as u64;
    let conv: u64 = 2 * key + value;
    let q: u64 = s.n_head as u64 * s.head_dim as u64;
    Sizes {
        qkv: 64 * conv,
        key: 64 * key,
        value: 64 * value,
        small: 64 * s.ssm_v_heads as u64,
        qfull: 64 * (2 * q),
        gate: 64 * q,
        shg: 64,
    }
}

/// Bytes of the ring of features of `n` layers.
pub fn ring_bytes(s: &Shape, n: usize) -> (r: usize)
    requires
        256 * (n * s.n_embd) * 4 <= usize::MAX,
    ensures
        r == 256 * (n * s.n_embd) * 4,
{
    assert(0 <= n * s.n_embd) by (nonlinear_arith);
    let w: usize = n * s.n_embd as usize;
    RING_CAP as usize * w * 4
}

} // verus!
