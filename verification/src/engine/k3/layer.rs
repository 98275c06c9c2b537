//! The weights of a layer: which are there, and in which format.
use vstd::prelude::*;

use super::dims::K3LayerKind;
use super::weights::K3WeightQuant;
use crate::engine::experts::ExpertTensor;

verus! {

/// The weights of a layer. Dense weights carry their format, others only that they are there.
#[derive(Debug, Clone, Copy)]
pub struct KimiK3W {
    pub kind: K3LayerKind,
    pub ssm_q_conv: bool,
    pub ssm_k_conv: bool,
    pub ssm_v_conv: bool,
    pub wq: Option<K3WeightQuant>,
    pub wk: Option<K3WeightQuant>,
    pub wv: Option<K3WeightQuant>,
    pub ssm_f_a: Option<K3WeightQuant>,
    pub ssm_f_b: bool,
    pub ssm_beta: Option<K3WeightQuant>,
    pub ssm_a: bool,
    pub ssm_dt_b: bool,
    pub wqkv_gate: Option<K3WeightQuant>,
    pub ssm_o_norm: bool,
    pub wo: Option<K3WeightQuant>,
    pub mla_wq_a: Option<K3WeightQuant>,
    pub mla_wq_b: Option<K3WeightQuant>,
    pub mla_q_a_norm: bool,
    pub mla_kv_a_norm: bool,
    pub mla_wkv_a_mqa: Option<K3WeightQuant>,
    pub mla_wk_b: bool,
    pub mla_wv_b: bool,
    pub mla_wkv_b: Option<K3WeightQuant>,
    pub mla_wqkv_gate: Option<K3WeightQuant>,
    pub mla_wo: Option<K3WeightQuant>,
    pub ffn_gate: Option<K3WeightQuant>,
    pub ffn_up: Option<K3WeightQuant>,
    pub ffn_down: Option<K3WeightQuant>,
    pub ffn_gate_inp: Option<K3WeightQuant>,
    pub ffn_exp_probs_b: bool,
    pub ffn_latent_down: Option<K3WeightQuant>,
    pub ffn_latent_up: bool,
    pub ffn_latent_norm: bool,
    pub ffn_gate_exps: Option<ExpertTensor>,
    pub ffn_up_exps: Option<ExpertTensor>,
    pub ffn_down_exps: Option<ExpertTensor>,
    pub ffn_gate_shexp: Option<K3WeightQuant>,
    pub ffn_up_shexp: Option<K3WeightQuant>,
    pub ffn_down_shexp: bool,
}

} // verus!
