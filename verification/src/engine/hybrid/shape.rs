//! Dimensions of the hybrid families.
use vstd::prelude::*;

verus! {

/// Tokens of a chunk at most.
pub const T_MAX: u32 = 16;

/// Rank of the grouped output projection.
pub const OUT_RANK: u32 = 1024;

/// Dimensions of a model.
#[derive(Debug, Clone, Copy, PartialEq, Eq, Structural)]
pub struct Shape {
    pub n_exec_layer: u32,
    pub n_embd: u32,
    pub n_vocab: u32,
    pub n_head: u32,
    pub n_head_kv: u32,
    pub head_dim: u32,
    pub rot_dim: u32,
    pub n_expert: u32,
    pub n_expert_used: u32,
    pub n_ff_exp: u32,
    /// Compressed attention.
    pub n_lora_q: u32,
    pub n_swa: u32,
    pub n_hc: u32,
    pub hc_sinkhorn: u32,
    pub n_out_group: u32,
    pub n_idx_head: u32,
    pub n_idx_dim: u32,
    pub n_idx_topk: u32,
    /// Delta-rule layers.
    pub ssm_k_heads: u32,
    pub ssm_v_heads: u32,
    pub ssm_state: u32,
    pub ssm_conv_k: u32,
    pub full_attn_interval: u32,
}

impl Shape {
    /// The elements of a chunk of rows have a 32-bit number.
    pub open spec fn wf_rows(self) -> bool {
        16 * (self.n_embd as int) <= u32::MAX
    }

    /// The experts of a chunk and their elements have 32-bit numbers.
    pub open spec fn wf_experts(self) -> bool {
        &&& self.wf_rows()
        &&& 16 * (self.n_expert_used as int) <= u32::MAX
        &&& 16 * (self.n_ff_exp as int) <= u32::MAX
    }

    /// The residual streams of a token, and their gates, have 32-bit numbers of elements.
    pub open spec fn wf_streams(self) -> bool {
        &&& self.n_hc * self.n_embd <= u32::MAX
        &&& 6 * self.n_hc <= u32::MAX
    }

    /// Compressed attention: there is a window, and the heads of a chunk and those of the indexer
    /// have 32-bit numbers of elements.
    pub open spec fn wf_window(self) -> bool {
        &&& self.n_swa > 0
        &&& self.n_head * self.head_dim <= u32::MAX
        &&& 16 * (self.n_head as int) <= u32::MAX
        &&& 16 * (self.head_dim as int) <= u32::MAX
        &&& self.n_idx_head * self.n_idx_dim <= u32::MAX
    }

    /// The output of compressed attention: there are groups, and their width and that of the heads
    /// have 32 bits.
    pub open spec fn wf_output(self) -> bool {
        &&& self.n_out_group > 0
        &&& self.n_out_group * 1024 <= u32::MAX
        &&& self.n_head * self.head_dim <= u32::MAX
    }

    /// Dimensions of a model with compressed attention. What belongs to delta-rule layers may be
    /// anything.
    pub open spec fn wf_dsv4(self) -> bool {
        self.wf_experts() && self.wf_streams() && self.wf_window() && self.wf_output()
    }

    /// The heads of a chunk of full attention have 32-bit numbers of elements.
    pub open spec fn wf_full(self) -> bool {
        &&& 16 * (self.n_head * self.head_dim) <= u32::MAX
        &&& 16 * (self.n_head as int) <= u32::MAX
        &&& self.n_head_kv * self.head_dim <= u32::MAX
        &&& 16 * (self.n_head_kv as int) <= u32::MAX
    }

    /// A chunk of a delta-rule layer has 32-bit numbers of elements.
    pub open spec fn wf_delta(self) -> bool {
        &&& 16 * self.conv_dim() <= u32::MAX
        &&& 16 * (self.ssm_k_heads as int) <= u32::MAX
        &&& 16 * (self.ssm_v_heads as int) <= u32::MAX
    }

    /// Dimensions of a model with delta-rule layers. What belongs to compressed attention may be
    /// anything.
    pub open spec fn wf_qwen35(self) -> bool {
        self.wf_experts() && self.wf_full() && self.wf_delta()
    }

    /// The state and the window of a delta-rule layer have 64-bit numbers of bytes.
    pub open spec fn wf_states(self) -> bool {
        &&& self.ssm_conv_k > 0
        &&& 4 * (self.value_dim() * self.ssm_state) <= u64::MAX
        &&& 4 * ((self.ssm_conv_k - 1) * self.conv_dim()) <= u64::MAX
    }

    /// Whether the experts of a chunk and their elements have 32-bit numbers.
    pub fn fits_experts(&self) -> (r: bool)
        ensures
            r == self.wf_experts(),
    {
        let top: u128 = 0xffff_ffff;
        proof {
            lemma_ones(*self);
        }
        scaled(16, self.n_embd, 1) <= top && scaled(16, self.n_expert_used, 1) <= top && scaled(
            16,
            self.n_ff_exp,
            1,
        ) <= top
    }

    /// Whether the dimensions are those of a model with compressed attention.
    pub fn fits_dsv4(&self) -> (r: bool)
        ensures
            r == self.wf_dsv4(),
    {
        let top: u128 = 0xffff_ffff;
        proof {
            lemma_ones(*self);
        }
        let streams: bool = scaled(1, self.n_hc, self.n_embd) <= top && scaled(6, self.n_hc, 1)
            <= top;
        let window: bool = self.n_swa > 0 && scaled(1, self.n_head, self.head_dim) <= top && scaled(
            16,
            self.n_head,
            1,
        ) <= top && scaled(16, self.head_dim, 1) <= top && scaled(
            1,
            self.n_idx_head,
            self.n_idx_dim,
        ) <= top;
        let output: bool = self.n_out_group > 0 && scaled(1024, self.n_out_group, 1) <= top;
        self.fits_experts() && streams && window && output
    }

    /// Whether the dimensions are those of a model with delta-rule layers.
    pub fn fits_qwen35(&self) -> (r: bool)
        ensures
            r == self.wf_qwen35(),
    {
        let top: u128 = 0xffff_ffff;
        proof {
            lemma_ones(*self);
            lemma_wide(self.ssm_k_heads as int, self.ssm_state as int);
            lemma_wide(self.ssm_v_heads as int, self.ssm_state as int);
        }
        let full: bool = scaled(16, self.n_head, self.head_dim) <= top && scaled(16, self.n_head, 1)
            <= top && scaled(1, self.n_head_kv, self.head_dim) <= top && scaled(
            16,
            self.n_head_kv,
            1,
        ) <= top;
        let delta: bool = 16 * self.conv_elems() <= top && scaled(16, self.ssm_k_heads, 1) <= top
            && scaled(16, self.ssm_v_heads, 1) <= top;
        self.fits_experts() && full && delta
    }

    /// Whether the state and the window of a delta-rule layer have 64-bit numbers of bytes.
    pub fn fits_states(&self) -> (r: bool)
        ensures
            r == self.wf_states(),
    {
        if self.ssm_conv_k == 0 {
            return false;
        }
        let top: u128 = 0xffff_ffff_ffff_ffff;
        let conv: u128 = self.conv_elems();
        let value: u128 = scaled(1, self.ssm_v_heads, self.ssm_state);
        proof {
            lemma_wide(self.ssm_v_heads as int, self.ssm_state as int);
            lemma_window(self.ssm_conv_k - 1, self.conv_dim());
            lemma_cube(value as int, self.ssm_state as int);
        }
        let window: u128 = (self.ssm_conv_k - 1) as u128 * conv;
        let state: u128 = value * self.ssm_state as u128;
        4 * state <= top && 4 * window <= top
    }

    /// Elements that the convolution of a token runs over.
    fn conv_elems(&self) -> (r: u128)
        ensures
            r == self.conv_dim(),
            r <= 3 * (0xffff_ffff * 0xffff_ffff),
    {
        proof {
            lemma_wide(self.ssm_k_heads as int, self.ssm_state as int);
            lemma_wide(self.ssm_v_heads as int, self.ssm_state as int);
        }
        2 * scaled(1, self.ssm_k_heads, self.ssm_state) + scaled(
            1,
            self.ssm_v_heads,
            self.ssm_state,
        )
    }

    /// Elements of the queries of a token.
    pub open spec fn q_dim(self) -> int {
        self.n_head * self.head_dim
    }

    /// Elements of the residual streams of a token.
    pub open spec fn hc_dim(self) -> int {
        self.n_hc * self.n_embd
    }

    pub open spec fn key_dim(self) -> int {
        self.ssm_k_heads * self.ssm_state
    }

    pub open spec fn value_dim(self) -> int {
        self.ssm_v_heads * self.ssm_state
    }

    /// Elements that the convolution of a token runs over.
    pub open spec fn conv_dim(self) -> int {
        2 * self.key_dim() + self.value_dim()
    }
}

proof fn lemma_wide(a: int, b: int)
    requires
        0 <= a <= u32::MAX,
        0 <= b <= u32::MAX,
    ensures
        0 <= a * b <= 0xffff_ffff * 0xffff_ffff,
{
    assert(0 <= a * b <= 0xffff_ffff * 0xffff_ffff) by (nonlinear_arith)
        requires
            0 <= a <= 0xffff_ffff,
            0 <= b <= 0xffff_ffff,
    ;
}

proof fn lemma_window(k: int, conv: int)
    requires
        0 <= k <= u32::MAX,
        0 <= conv <= 3 * (0xffff_ffff * 0xffff_ffff),
    ensures
        0 <= k * conv <= 0xffff_ffff * (3 * (0xffff_ffff * 0xffff_ffff)),
{
    assert(0 <= k * conv <= 0xffff_ffff * (3 * (0xffff_ffff * 0xffff_ffff))) by (nonlinear_arith)
        requires
            0 <= k <= 0xffff_ffff,
            0 <= conv <= 3 * (0xffff_ffff * 0xffff_ffff),
    ;
}

proof fn lemma_cube(a: int, b: int)
    requires
        0 <= a <= 0xffff_ffff * 0xffff_ffff,
        0 <= b <= u32::MAX,
    ensures
        0 <= a * b <= (0xffff_ffff * 0xffff_ffff) * 0xffff_ffff,
{
    assert(0 <= a * b <= (0xffff_ffff * 0xffff_ffff) * 0xffff_ffff) by (nonlinear_arith)
        requires
            0 <= a <= 0xffff_ffff * 0xffff_ffff,
            0 <= b <= 0xffff_ffff,
    ;
}

/// A factor of one changes nothing.
proof fn lemma_ones(s: Shape)
    ensures
        s.n_embd * 1 == s.n_embd,
        s.n_hc * 1 == s.n_hc,
        s.n_head * 1 == s.n_head,
        s.n_head_kv * 1 == s.n_head_kv,
        s.head_dim * 1 == s.head_dim,
        s.n_out_group * 1 == s.n_out_group,
        s.n_expert_used * 1 == s.n_expert_used,
        s.n_ff_exp * 1 == s.n_ff_exp,
        s.ssm_k_heads * 1 == s.ssm_k_heads,
        s.ssm_v_heads * 1 == s.ssm_v_heads,
{
}

/// `k` times `a` times `b`.
pub(crate) fn scaled(k: u32, a: u32, b: u32) -> (r: u128)
    ensures
        r == k * (a * b),
{
    proof {
        lemma_wide(a as int, b as int);
        lemma_cube(a * b, k as int);
        assert(k * (a * b) == (a * b) * k) by (nonlinear_arith);
    }
    let ab: u128 = a as u128 * b as u128;
    k as u128 * ab
}

/// `a` times `b` as 32 bits.
pub open spec fn times(a: int, b: int) -> u32 {
    (a * b) as u32
}

/// `a` times `b` as 64 bits.
pub open spec fn wide_times(a: int, b: int) -> u64 {
    (a * b) as u64
}

/// The elements of `t` rows.
pub fn rows(t: u32, n: u32) -> (r: u32)
    requires
        t <= 16,
        16 * n <= u32::MAX,
    ensures
        r == times(t as int, n as int),
        r == t * n,
{
    assert(t * n <= 16 * n) by (nonlinear_arith)
        requires
            0 <= t <= 16,
            0 <= n,
    ;
    t * n
}

} // verus!
