//! Buffers, weights and kernels of the hybrid families.
use vstd::prelude::*;

verus! {

/// The two halves of a layer.
#[derive(Debug, Clone, Copy, PartialEq, Eq, Structural)]
pub enum Half {
    Attn,
    Ffn,
}

/// A buffer of a resident tier.
#[derive(Debug, Clone, Copy, PartialEq, Eq, Structural)]
pub enum TierBuf {
    Xin,
    Weights,
    Xq,
    Ptrs,
    GrpPtrs,
    GrpStarts,
    GrpPairs,
    Mid,
    Midq,
    GrpPartial,
    Out,
}

/// A buffer of the draft model.
#[derive(Debug, Clone, Copy, PartialEq, Eq, Structural)]
pub enum DraftBuf {
    /// Window of features, in the order of the positions.
    FeatIn,
    Feat,
    H,
    Hn,
    Q,
    Kcat,
    Vcat,
    Attn,
    Ffa,
    Ffb,
    Ffm,
    Tmp,
}

/// A buffer.
#[derive(Debug, Clone, Copy, PartialEq, Eq, Structural)]
pub enum Buf {
    /// Token ids.
    Tok,
    Cur,
    Normed,
    LastRow,
    Logits,
    QRank,
    QRankNorm,
    Q,
    K,
    V,
    Heads,
    AttnOut,
    AfterAttn,
    RouterLogits,
    RouterSelected,
    RouterWeights,
    GateAct,
    UpAct,
    FfnMid,
    SharedOut,
    /// Quantized input of the experts.
    Xq,
    ExpertPtrs,
    MoeMid,
    Midq,
    MoeOut,
    TierRet,
    CpuRet,
    FfnOut,
    KCache(u32),
    VCache(u32),
    Tier(u32, TierBuf),
    /// One of the two stores of residual streams.
    Hc(bool),
    Mix,
    Coef(Half),
    Low,
    CompKv,
    CompSc,
    IdxW,
    Allowed,
    /// Values and scores of a compressor lane; the lane of the indexer where the flag is set.
    LaneKv(u32, bool),
    LaneSc(u32, bool),
    IdxCache(u32),
    /// Scratch of the delta-rule layers.
    Qkv,
    ConvOut,
    Z,
    Gq,
    Gk,
    Gv,
    G,
    Beta,
    GdnO,
    GdnTmp,
    Qfull,
    Gate,
    Shg,
    /// Delta-rule state and convolution window of a layer.
    GdnS(u32),
    GdnConv(u32),
    SnapS(u32),
    SnapConv(u32),
    StashQkv(u32),
    StashG(u32),
    StashBeta(u32),
    /// Ring of captured features.
    Ring,
    Draft(DraftBuf),
}

/// A weight.
#[derive(Debug, Clone, Copy, PartialEq, Eq, Structural)]
pub enum Weight {
    TokenEmbd,
    OutputNorm,
    Output,
    OnesHc,
    OutFn,
    HcFn(u32, Half),
    AttnNorm(u32),
    FfnNorm(u32),
    QA(u32),
    QANorm(u32),
    QB(u32),
    Kv(u32),
    KvANorm(u32),
    CompKvW(u32, bool),
    CompGateW(u32, bool),
    IdxQB(u32),
    IdxProj(u32),
    OutA(u32),
    AttnOutput(u32),
    GateInp(u32),
    ShexpGate(u32),
    ShexpUp(u32),
    ShexpDown(u32),
    ShexpScalar(u32),
    Wqkv(u32),
    Wz(u32),
    AlphaW(u32),
    BetaW(u32),
    ConvW(u32),
    SsmNorm(u32),
    SsmOut(u32),
    Wq(u32),
    Wk(u32),
    Wv(u32),
    QNorm(u32),
    KNorm(u32),
    DraftFc,
    DraftHiddenNorm,
    DraftOutNorm,
    DraftAttnNorm(u32),
    DraftWq(u32),
    DraftWk(u32),
    DraftWv(u32),
    DraftQNorm(u32),
    DraftKNorm(u32),
    DraftWo(u32),
    DraftFfnNorm(u32),
    DraftGate(u32),
    DraftUp(u32),
    DraftDown(u32),
}

/// What is launched. Rows of a batch lie one behind the other, `t` of them.
#[derive(Debug, Clone, Copy, PartialEq, Eq, Structural)]
pub enum Kernel {
    /// Token ids from `from` on go to the device.
    WriteTokens { from: u32, t: u32 },
    /// A drafted block goes to the device: the last token and then masks.
    WriteBlock { last: u32, mask: u32, t: u32 },
    Embed { n_embd: u32, n_vocab: u32, t: u32 },
    /// Row `from` of the second operand goes to row `to` of the first.
    CopyRow { from: u32, to: u64, n: u32 },
    /// The first `count` elements of the operand.
    Copy { count: u64 },
    /// `rows` rows of the operand from row `from` on.
    Rows { from: u32, rows: u32, n: u32 },
    RmsNorm { w: Weight, width: u32, rows: u32 },
    /// Root-mean-square normalization of each head, with or without a weight.
    HeadNorm { norm: Option<Weight>, heads: u32, width: u32 },
    MatmulQ8_0 { w: Weight, n_in: u32, n_out: u32, t: u32 },
    MatmulF32 { w: Weight, n_in: u32, n_out: u32, t: u32 },
    /// Product written behind row `row` of the first operand.
    MatmulBehind { w: Weight, row: u32, n_in: u32, n_out: u32, t: u32 },
    /// Grouped product: `n_group` groups, each with its own rows of the weight.
    MatmulBanked { w: Weight, n_in: u32, n_out: u32, n_group: u32, t: u32 },
    /// Gates of the residual streams from their control projection.
    Sinkhorn { il: u32, half: Half, n_hc: u32, iters: u32, t: u32 },
    /// The residual streams mixed into one row by their first gates.
    HcReduce { n_embd: u32, n_hc: u32, t: u32 },
    /// The residual streams mixed among themselves, plus the block output.
    HcMix { n_embd: u32, n_hc: u32, t: u32 },
    /// Host: the residual streams mixed by the gates of the output head.
    HcHead { n_embd: u32, n_hc: u32 },
    /// Rotates the tail of each head; back where `inverse` is set. The ratio picks the angles.
    RopeTail { ratio: u32, heads: u32, head_dim: u32, rot: u32, pos: u32, t: u32, inverse: bool },
    Fp8Sim { head_dim: u32, rot: u32, t: u32 },
    F16Round { n: u32 },
    /// One token of a compressor lane: values, scores and cache. A row goes to the cache where a
    /// window ends.
    CompStep { il: u32, idx: bool, cached: u32, token: u32, width: u32, head_dim: u32, pos: u32, emit: bool },
    /// Attention of one token over the window and the compressed rows; into its row of the output.
    AttentionAt { il: u32, token: u32, n_raw: u32, n_comp: u32, masked: bool },
    /// Host: the mask of compressed rows goes to the device.
    WriteMask,
    /// Host: selected experts and their weights go to the device.
    WriteSelected { n: u32 },
    WriteWeights { n: u32 },
    RouterSelect { il: u32, n_expert: u32, n_used: u32, t: u32 },
    /// Gated product; the clamp applies where the flag is set.
    Swiglu { n: u32, clamp: bool },
    /// `count` zeros.
    Zero { count: u64 },
    Add { n: u32 },
    QuantizeQ8k { n: u32, rows: u32 },
    WriteExpertPtrs { n: u32 },
    /// Handles of the slots of a tier, or of its groups.
    WriteTierPtrs { tier: u32 },
    WriteGroups { tier: u32, n_group: u32 },
    MoePair { n_embd: u32, n_ff: u32, n_used: u32, t: u32, row_bytes: u64, quant: u32, act: u32 },
    MoeDown { n_ff: u32, n_embd: u32, n_used: u32, t: u32, row_bytes: u64, quant: u32 },
    MoePairGrouped { n_embd: u32, n_ff: u32, n_used: u32, n_group: u32, row_bytes: u64, quant: u32, act: u32 },
    MoeDownGrouped { n_ff: u32, n_embd: u32, n_used: u32, n_group: u32, row_bytes: u64, quant: u32 },
    MoeSlotSum { n_embd: u32, n_used: u32, t: u32 },
    /// Host: what the host computed of the experts.
    HostPartial { n: u32 },
    Head { rows: u32 },
    /// Stores the rows of a chunk in the ring, `stride` apart, `at` into each row.
    RingScatter { pos: u32, cap: u32, t: u32, n: u32, stride: u32, at: u32 },
    /// Takes `t` rows out of the ring from slot `from` on.
    RingGather { from: u32, cap: u32, t: u32, n: u32 },
    /// Decay and write strength from their projections.
    GdnCoeffs { il: u32, heads: u32, t: u32 },
    /// Causal convolution: output and window.
    ConvBatch { w: Weight, n: u32, k: u32, t: u32 },
    SplitQkv { key: u32, value: u32, t: u32 },
    L2Norm { rows: u32, width: u32 },
    /// Delta rule: output and state.
    GdnBatch { v_heads: u32, k_heads: u32, state: u32, t: u32 },
    SplitGate { heads: u32, width: u32 },
    /// Rotation of heads by position.
    Rope { heads: u32, head_dim: u32, rot: u32, pos: u32, t: u32 },
    KvAppend { heads: u32, head_dim: u32, ctx: u32, pos: u32, t: u32 },
    Attention { n_head: u32, n_kv: u32, head_dim: u32, ctx: u32, pos: u32, t: u32 },
    SigmoidGate { n: u32 },
    RowSigmoidScale { t: u32, n: u32 },
    RopeYarn { heads: u32, head_dim: u32, pos: u32, t: u32 },
    DraftAttention { n_head: u32, n_kv: u32, head_dim: u32, t: u32, total: u32 },
}

} // verus!
