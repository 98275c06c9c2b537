//! Buffers, weights and kernels of the model.
use vstd::prelude::*;

use super::moe::Accumulation;

verus! {

/// A buffer.
#[derive(Debug, Clone, Copy, PartialEq, Eq, Structural)]
pub enum Buf {
    /// Token id.
    Tok,
    /// Residual stream.
    Cur,
    /// Normalized input of the attention, and of the head.
    StNormed,
    Logits,
    /// Scratch of the runtime.
    Normed,
    AttnOut,
    FfnOut,
    RouterLogits,
    Latent,
    MoeOut,
    ShexpOut,
    MixOut,
    KdaFa,
    KdaGRaw,
    KdaGateLogits,
    KdaConvOut,
    KdaQ,
    KdaK,
    KdaV,
    KdaGated,
    KdaONormed,
    DenseGate,
    DenseUp,
    DenseMid,
    ShexpGate,
    ShexpUp,
    ShexpMid,
    ExpertSelected,
    ExpertWeights,
    ExpertStaging,
    ExpertGate,
    ExpertUp,
    ExpertMid,
    ExpertDown,
    LatentNormed,
    /// Activation quantized to 8 bits.
    Q8k,
    /// A copy of the normalized input of the feed-forward part.
    FfnInput,
    /// Pointers to one expert.
    ExpertPtr,
    /// A weight of one.
    OneWeight,
    QkLow,
    /// What the expert of a slot gave.
    Slot(u32),
    /// Snapshot of the residual stream.
    Bank(u32),
    /// Convolution window of a layer: query, key, value.
    Conv(u32, u32),
    /// Delta-rule state of a layer.
    Ssm(u32),
    /// Compressed keys and values of a layer.
    KCache(u32),
    /// Shared key tail of a layer.
    VCache(u32),
}

/// A weight.
#[derive(Debug, Clone, Copy, PartialEq, Eq, Structural)]
pub enum Weight {
    TokenEmbd,
    OutputNorm,
    Output,
    OutputResNorm,
    OutputResProj,
    AttnNorm(u32),
    FfnNorm(u32),
    AttnResNorm(u32),
    AttnResProj(u32),
    FfnResNorm(u32),
    FfnResProj(u32),
    SsmQConv(u32),
    SsmKConv(u32),
    SsmVConv(u32),
    Wq(u32),
    Wk(u32),
    Wv(u32),
    SsmFa(u32),
    SsmFb(u32),
    SsmBeta(u32),
    SsmA(u32),
    SsmDtB(u32),
    WqkvGate(u32),
    SsmONorm(u32),
    Wo(u32),
    MlaWqA(u32),
    MlaWqB(u32),
    MlaQANorm(u32),
    MlaKvANorm(u32),
    MlaWkvAMqa(u32),
    MlaWkB(u32),
    MlaWvB(u32),
    MlaWqkvGate(u32),
    MlaWo(u32),
    FfnGate(u32),
    FfnUp(u32),
    FfnDown(u32),
    FfnGateInp(u32),
    FfnExpProbsB(u32),
    FfnLatentDown(u32),
    FfnLatentUp(u32),
    FfnLatentNorm(u32),
    FfnGateShexp(u32),
    FfnUpShexp(u32),
    FfnDownShexp(u32),
}

/// What is launched. Host steps read their operands back, compute, and write the result.
#[derive(Debug, Clone, Copy, PartialEq, Eq, Structural)]
pub enum Kernel {
    /// A token id goes to the device.
    WriteToken(u32),
    Embed { n_embd: u32, n_vocab: u32 },
    /// Whole-buffer copy of `n` elements.
    Copy { n: u32 },
    /// Elements `from .. from + n` of the operand.
    Slice { from: u32, n: u32 },
    /// Quantizes `n` elements to 8 bits.
    QuantizeQ8k { n: u32 },
    /// Product on a quantized activation.
    MatmulQ8k { w: Weight, n_in: u32, n_out: u32 },
    /// Product on an activation in single precision; the second result is the scratch that it may
    /// use for the quantized activation.
    Matmul { w: Weight, n_in: u32, n_out: u32 },
    MatmulF32 { w: Weight, n_in: u32, n_out: u32 },
    MatmulQ8_0 { w: Weight, n_in: u32, n_out: u32 },
    RmsNorm { w: Weight, width: u32, rows: u32 },
    L2Norm { rows: u32, width: u32 },
    /// `x` plus a causal convolution of `x`; the second result is the window.
    Sconv { w: Weight, d: u32, k: u32 },
    /// Host: `silu(a - b)`.
    SiluDiff { n: u32 },
    /// Host: `lower * sigmoid(|a| * (x + dt))`, `a` per head.
    SafeGate { dt: Weight, a: Weight, n_head: u32, width: u32 },
    /// Host: sigmoid.
    HostSigmoid { n: u32 },
    /// Delta rule: output and state.
    KdaStep { n_head: u32, width: u32 },
    Sigmoid { n: u32 },
    Mul { n: u32 },
    Add { n: u32 },
    SituGlu { n: u32 },
    /// Stores the compressed keys and the tail of a position; results are the two caches.
    MlaStore { pos: u32, ctx: u32, stride: u32, rank: u32, tail: u32 },
    /// Attention over the caches with split weights; the second result is scratch.
    MlaAttention {
        wk: Weight,
        wv: Weight,
        n_kv: u32,
        ctx: u32,
        n_head: u32,
        qk_nope: u32,
        qk_rope: u32,
        rank: u32,
        v: u32,
    },
    /// Host: mixture of the snapshots and the residual stream.
    ResMix { norm: Weight, proj: Weight, rows: u32, n: u32 },
    /// Selected experts and their weights.
    RouterSelect { bias: Weight, n_expert: u32, n_used: u32 },
    /// Host: the experts computed there, on the latent with the weights of the router.
    HostExperts { q8: bool, n: u32 },
    /// Host: root-mean-square normalization.
    HostRmsNorm { w: Weight, n: u32 },
    /// Pointers to the expert of a slot go to the device.
    WriteExpert { slot: u32 },
    WriteOne,
    /// Host: the outputs of the slots, each times its weight, added in the order of the slots.
    Accumulate { mode: Accumulation, n: u32 },
    /// Gated product of one expert on a quantized activation.
    ExpertPair { n_in: u32, n_mid: u32, row_bytes: u64, quant: u32 },
    /// Down projection of one expert on a quantized activation.
    ExpertDown { n_mid: u32, n_out: u32, row_bytes: u64, quant: u32 },
    Head { rows: u32 },
    /// Clears `bytes` bytes.
    Zero { bytes: u64 },
}

} // verus!
