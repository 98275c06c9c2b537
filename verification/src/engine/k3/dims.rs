//! Dimensions of the model and of its buffers.
use vstd::prelude::*;

verus! {

/// The kind of a layer's attention.
#[derive(Debug, Clone, Copy, PartialEq, Eq, Structural)]
pub enum K3LayerKind {
    /// Recurrent delta attention: short convolutions, delta rule, bounded gate.
    Kda,
    /// Gated latent attention without positional embedding.
    Mla,
}

/// Dimensions of the gated latent attention.
#[derive(Debug, Clone, Copy, PartialEq, Eq, Structural)]
pub struct K3MlaDims {
    pub n_head: u32,
    pub q_lora_rank: u32,
    pub kv_lora_rank: u32,
    pub qk_nope: u32,
    pub qk_rope: u32,
    pub v_mla: u32,
    pub n_embd: u32,
}

impl K3MlaDims {
    /// The derived widths fit.
    pub open spec fn wf(self) -> bool {
        &&& self.qk_nope + self.qk_rope <= u32::MAX
        &&& self.n_head * (self.qk_nope + self.qk_rope) <= u32::MAX
        &&& self.kv_lora_rank + self.qk_rope <= u32::MAX
        &&& self.n_head * self.v_mla <= u32::MAX
    }

    /// The dimensions of the reference model.
    pub fn canonical() -> (r: Self)
        ensures
            r == (K3MlaDims {
                n_head: 96,
                q_lora_rank: 1536,
                kv_lora_rank: 512,
                qk_nope: 128,
                qk_rope: 64,
                v_mla: 128,
                n_embd: 7168,
            }),
            r.wf(),
    {
        K3MlaDims {
            n_head: 96,
            q_lora_rank: 1536,
            kv_lora_rank: 512,
            qk_nope: 128,
            qk_rope: 64,
            v_mla: 128,
            n_embd: 7168,
        }
    }

    /// Width of a query or key head.
    pub fn qk_dim(&self) -> (r: u32)
        requires
            self.qk_nope + self.qk_rope <= u32::MAX,
        ensures
            r == self.qk_nope + self.qk_rope,
    {
        self.qk_nope + self.qk_rope
    }

    /// Width of all query heads.
    pub fn q_b_out(&self) -> (r: u32)
        requires
            self.qk_nope + self.qk_rope <= u32::MAX,
            self.n_head * (self.qk_nope + self.qk_rope) <= u32::MAX,
        ensures
            r == self.n_head * (self.qk_nope + self.qk_rope),
    {
        self.n_head * self.qk_dim()
    }

    /// Width of the compressed keys and values with the shared tail.
    pub fn kv_a_out(&self) -> (r: u32)
        requires
            self.kv_lora_rank + self.qk_rope <= u32::MAX,
        ensures
            r == self.kv_lora_rank + self.qk_rope,
    {
        self.kv_lora_rank + self.qk_rope
    }

    /// Width of the output gate.
    pub fn gate_out(&self) -> (r: u32)
        requires
            self.n_head * self.v_mla <= u32::MAX,
        ensures
            r == self.n_head * self.v_mla,
    {
        self.n_head * self.v_mla
    }

    /// Width of what the output projection takes.
    pub fn o_proj_in(&self) -> (r: u32)
        requires
            self.n_head * self.v_mla <= u32::MAX,
        ensures
            r == self.n_head * self.v_mla,
    {
        self.n_head * self.v_mla
    }
}

/// The shape of the model.
#[derive(Debug, Clone, Copy, PartialEq, Eq, Structural)]
pub struct K3Shape {
    pub n_exec_layer: u32,
    pub n_leading_dense: u32,
    pub n_vocab: u32,
    pub n_embd: u32,
    pub n_head: u32,
    pub kda_head_dim: u32,
    pub ssm_conv_k: u32,
    pub attn_res_block_size: u32,
    pub n_lora_q: u32,
    pub n_kv_lora: u32,
    pub qk_nope: u32,
    pub qk_rope: u32,
    pub value_mla: u32,
    pub moe_latent_size: u32,
    pub n_ff_dense: u32,
    pub n_ff_exp: u32,
    pub n_expert: u32,
    pub n_expert_used: u32,
    pub n_expert_shared: u32,
}

/// The greater of two.
pub open spec fn most(a: int, b: int) -> int {
    if a > b {
        a
    } else {
        b
    }
}

/// At least one.
pub open spec fn some(n: u32) -> int {
    most(n as int, 1)
}

/// The product of two numbers.
pub(crate) fn wide(a: u64, b: u64) -> (r: u128)
    ensures
        r == a * b,
{
    assert(0 <= a * b <= 0xffff_ffff_ffff_ffff * 0xffff_ffff_ffff_ffff) by (nonlinear_arith)
        requires
            0 <= a <= 0xffff_ffff_ffff_ffff,
            0 <= b <= 0xffff_ffff_ffff_ffff,
    ;
    a as u128 * b as u128
}

impl K3Shape {
    /// Width of all heads of the delta attention.
    pub open spec fn d_inner(self) -> int {
        self.n_head * self.kda_head_dim
    }

    /// Width of a query or key head.
    pub open spec fn qk(self) -> int {
        self.qk_nope + self.qk_rope
    }

    /// Width of the queries, or of the values where those are wider.
    pub open spec fn mla_q(self) -> int {
        self.n_head * most(self.qk(), self.value_mla as int)
    }

    /// Width of the gated attention output.
    pub open spec fn mla_gate(self) -> int {
        self.n_head * self.value_mla
    }

    /// Width of keys and values of all heads.
    pub open spec fn mla_kv(self) -> int {
        self.n_head * (self.qk() + self.value_mla)
    }

    /// Width of the shared experts.
    pub open spec fn shexp(self) -> int {
        some(self.n_ff_exp) * some(self.n_expert_shared)
    }

    /// The streams of delta attention have 32-bit numbers of elements.
    pub open spec fn wf_delta(self) -> bool {
        self.d_inner() <= u32::MAX
    }

    /// So have a convolution window and a state.
    pub open spec fn wf_states(self) -> bool {
        &&& self.wf_delta()
        &&& self.d_inner() * most(self.ssm_conv_k - 1, 1) <= u32::MAX
        &&& self.d_inner() * self.kda_head_dim <= u32::MAX
    }

    /// So have the heads of latent attention, together and each.
    pub open spec fn wf_latent(self) -> bool {
        self.mla_dims().wf()
    }

    /// So has the activation of the shared experts.
    pub open spec fn wf_shared(self) -> bool {
        self.n_ff_exp * self.n_expert_shared <= u32::MAX
    }

    /// So has a matrix of a routed expert.
    pub open spec fn wf_expert(self) -> bool {
        self.moe_latent_size * self.n_ff_exp <= u32::MAX
    }

    /// The snapshots of all layers and the residual stream are counted in 32 bits, and a token can
    /// go through layers of both kinds.
    pub open spec fn wf_layers(self) -> bool {
        self.n_exec_layer < u32::MAX && self.wf_delta() && self.wf_latent()
    }

    /// All of that.
    pub open spec fn wf(self) -> bool {
        self.wf_layers() && self.wf_states() && self.wf_shared() && self.wf_expert()
    }

    /// Whether no number of elements that the layers go by leaves 32 bits.
    pub fn fits(&self) -> (r: bool)
        ensures
            r == self.wf(),
    {
        let top: u128 = 0xffff_ffff;
        let inner: u128 = wide(self.n_head as u64, self.kda_head_dim as u64);
        if inner > top {
            return false;
        }
        let narrow: u64 = inner as u64;
        let window: u64 = if self.ssm_conv_k > 2 {
            (self.ssm_conv_k - 1) as u64
        } else {
            1
        };
        let delta: bool = wide(narrow, window) <= top && wide(narrow, self.kda_head_dim as u64)
            <= top;
        let qk: u64 = self.qk_nope as u64 + self.qk_rope as u64;
        let latent: bool = qk as u128 <= top && wide(self.n_head as u64, qk) <= top
            && self.n_kv_lora as u128 + self.qk_rope as u128 <= top && wide(
            self.n_head as u64,
            self.value_mla as u64,
        ) <= top;
        let experts: bool = wide(self.n_ff_exp as u64, self.n_expert_shared as u64) <= top && wide(
            self.moe_latent_size as u64,
            self.n_ff_exp as u64,
        ) <= top;
        delta && latent && experts && self.n_exec_layer < 0xffff_ffff
    }

    /// The dimensions of the gated latent attention.
    pub open spec fn mla_dims(self) -> K3MlaDims {
        K3MlaDims {
            n_head: self.n_head,
            q_lora_rank: self.n_lora_q,
            kv_lora_rank: self.n_kv_lora,
            qk_nope: self.qk_nope,
            qk_rope: self.qk_rope,
            v_mla: self.value_mla,
            n_embd: self.n_embd,
        }
    }

    /// The dimensions of the gated latent attention.
    pub fn mla(&self) -> (r: K3MlaDims)
        requires
            self.wf_latent(),
        ensures
            r == self.mla_dims(),
            r.wf(),
    {
        K3MlaDims {
            n_head: self.n_head,
            q_lora_rank: self.n_lora_q,
            kv_lora_rank: self.n_kv_lora,
            qk_nope: self.qk_nope,
            qk_rope: self.qk_rope,
            v_mla: self.value_mla,
            n_embd: self.n_embd,
        }
    }

    /// Width of all heads of the delta attention.
    pub fn inner(&self) -> (r: u32)
        requires
            self.wf_delta(),
        ensures
            r == self.d_inner(),
    {
        self.n_head * self.kda_head_dim
    }

    /// Layers between two snapshots.
    pub open spec fn block(self) -> int {
        some(self.attn_res_block_size)
    }
}

} // verus!
