//! The K3 family: which launches a token makes, which experts are brought, and what is compared.

use std::collections::hash_map::DefaultHasher;
use std::collections::HashMap;
use std::hash::{Hash, Hasher};

use pulsar::engine::experts::ExpertTensor;
use pulsar::engine::k3::compare::{
    dump_file_name, first_mismatch, k3_fnv1a, manifest_line, neighbours, packed_file_name, saturated,
    k3_compare_boundary, state_slot_of, weight_counts, Boundary, Filters, Packed,
};
use pulsar::engine::k3::compute::{
    grown_scratch, host_experts, k3_cpu_q8_moe_compute, k3_gpu_moe_compute, k3_host_moe_compute,
    k3_q8_dot, q8k_size, Brought, Tensors,
};
use pulsar::engine::k3::dims::{K3LayerKind, K3Shape};
use pulsar::engine::k3::forward::{
    check_devices, check_ready, forward_steps, Ffn, K3Forward, Placement, Readiness, TokenStep,
};
use pulsar::engine::k3::kernels::{Buf, Kernel};
use pulsar::engine::k3::layer::KimiK3W;
use pulsar::engine::k3::moe::{
    expert_path, k3_accum_mode, k3_expert_backend, moe_join, resolve_experts, Accumulation, Backend,
    Path,
};
use pulsar::engine::k3::runtime::{
    fits_memory, layer_state_bytes, reset, runtime_sizes, scratch_bytes,
};
use pulsar::engine::k3::trace::{snaps_after, snaps_before, Snap};
use pulsar::engine::k3::weights::{
    check_direct, k3_quant_to_tensor_type, K3DenseWeight, K3WeightQuant, Product, QUANT_Q2_K,
    QUANT_Q3_K, QUANT_Q4_0, QUANT_Q4_K, QUANT_Q8_0,
};
use pulsar::engine::program::Program;
use pulsar::gguf::TensorType;
use pulsar::quant::q8row::{vec_dot_q2_k_q8_k, Q8KRow};

fn shape() -> K3Shape {
    K3Shape {
        n_exec_layer: 3,
        n_leading_dense: 1,
        n_vocab: 50,
        n_embd: 256,
        n_head: 2,
        kda_head_dim: 64,
        ssm_conv_k: 4,
        attn_res_block_size: 2,
        n_lora_q: 32,
        n_kv_lora: 16,
        qk_nope: 8,
        qk_rope: 4,
        value_mla: 8,
        moe_latent_size: 256,
        n_ff_dense: 512,
        n_ff_exp: 256,
        n_expert: 4,
        n_expert_used: 2,
        n_expert_shared: 1,
    }
}

fn quant(q: u32) -> Option<K3WeightQuant> {
    Some(K3WeightQuant { quant: q, row_bytes: 84 })
}

fn tensor(abs_offset: u64, q: u32, bytes: u64) -> ExpertTensor {
    ExpertTensor { abs_offset, expert_bytes: bytes, row_bytes: 84, quant: q }
}

fn tensors() -> Tensors {
    let n = 256 * 84;
    Tensors { gate: tensor(0, QUANT_Q2_K, n), up: tensor(1 << 20, QUANT_Q2_K, n), down: tensor(2 << 20, QUANT_Q2_K, n) }
}

fn layer(kind: K3LayerKind) -> KimiK3W {
    let q = quant(QUANT_Q2_K);
    let t = tensors();
    KimiK3W {
        kind,
        ssm_q_conv: true,
        ssm_k_conv: true,
        ssm_v_conv: true,
        wq: q,
        wk: q,
        wv: q,
        ssm_f_a: q,
        ssm_f_b: true,
        ssm_beta: q,
        ssm_a: true,
        ssm_dt_b: true,
        wqkv_gate: q,
        ssm_o_norm: true,
        wo: q,
        mla_wq_a: q,
        mla_wq_b: q,
        mla_q_a_norm: true,
        mla_kv_a_norm: true,
        mla_wkv_a_mqa: q,
        mla_wk_b: true,
        mla_wv_b: true,
        mla_wkv_b: None,
        mla_wqkv_gate: q,
        mla_wo: q,
        ffn_gate: q,
        ffn_up: q,
        ffn_down: q,
        ffn_gate_inp: q,
        ffn_exp_probs_b: true,
        ffn_latent_down: q,
        ffn_latent_up: true,
        ffn_latent_norm: true,
        ffn_gate_exps: Some(t.gate),
        ffn_up_exps: Some(t.up),
        ffn_down_exps: Some(t.down),
        ffn_gate_shexp: q,
        ffn_up_shexp: q,
        ffn_down_shexp: true,
    }
}

#[test]
fn only_the_last_token_gives_logits() {
    assert_eq!(forward_steps(&[], 0, 1).err(), Some("empty batch"));
    let s = forward_steps(&[7, 8, 9], 10, 3).ok().unwrap();
    let all: Vec<(u32, u32, u32)> = s.iter().map(|t| (t.token, t.pos, t.rows)).collect();
    assert_eq!(all, vec![(7, 10, 0), (8, 11, 0), (9, 12, 1)]);
    assert_eq!(forward_steps(&[7], 10, 3).ok().unwrap()[0].rows, 3);
    assert_eq!(forward_steps(&[7, 8], 0, 0).ok().unwrap()[1].rows, 0);
}

#[test]
fn what_a_step_needs() {
    let ok = Readiness { devices: 1, runtime: true, output_res_norm: true, output_res_proj: true };
    assert_eq!(check_ready(&ok), Ok(()));
    assert_eq!(check_ready(&Readiness { devices: 0, ..ok }), Err("K3 forward requires CUDA"));
    assert_eq!(check_ready(&Readiness { runtime: false, ..ok }), Err("K3 forward: missing KimiK3Rt"));
    assert_eq!(
        check_ready(&Readiness { output_res_norm: false, ..ok }),
        Err("K3 forward: output_res_norm not loaded (missing from gguf)")
    );
    assert_eq!(
        check_ready(&Readiness { output_res_proj: false, ..ok }),
        Err("K3 forward: output_res_proj not loaded (missing from gguf)")
    );
    let at = vec![Placement { name: "cur", device: 0 }, Placement { name: "bank", device: 2 }];
    assert_eq!(
        check_devices(&at, 0),
        Err("K3 device validation failed: bank is on CUDA 2, expected CUDA 0".to_string())
    );
    assert_eq!(check_devices(&vec![Placement { name: "cur", device: 0 }], 0), Ok(()));
    assert_eq!(
        check_devices(&vec![Placement { name: "cur", device: 0 }], -1),
        Err("K3 device validation failed: cur is on CUDA 0, expected CUDA -1".to_string())
    );
    assert_eq!(check_devices(&vec![Placement { name: "cur", device: -1 }], 0), Ok(()));
}

#[test]
fn a_token_runs_through_the_layers() {
    let s = shape();
    let layers =
        vec![Some(layer(K3LayerKind::Kda)), Some(layer(K3LayerKind::Mla)), Some(layer(K3LayerKind::Kda))];
    let mut p = Program::new();
    let step = TokenStep { token: 5, pos: 3, rows: 1 };
    let mut f = K3Forward::start(&mut p, &s, &step, 100);
    assert_eq!(p.ops[0].f, Kernel::WriteToken(5));
    let mut kinds = Vec::new();
    while f.il < s.n_exec_layer {
        let ffn = f.enter_layer(&mut p, &s, &layers).ok().unwrap();
        kinds.push(ffn);
        if ffn == Ffn::Routed {
            host_experts(&mut p, &s, true);
            moe_join(&mut p, &s, f.il);
        }
        f.leave_layer(&mut p, &s);
    }
    assert_eq!(kinds, vec![Ffn::Dense, Ffn::Routed, Ffn::Routed]);
    // blocks of two layers: snapshots at layers 0 and 2
    assert_eq!(f.bank_len, 2);
    let banks: Vec<Buf> =
        p.ops.iter().flat_map(|o| o.dsts.clone()).filter(|b| matches!(b, Buf::Bank(_))).collect();
    assert_eq!(banks, vec![Buf::Bank(0), Buf::Bank(1)]);
    assert_eq!(f.finish(&mut p, &s), Some(1));
    assert_eq!(p.ops.last().map(|o| o.dsts.clone()), Some(vec![Buf::Logits]));
    assert!(p.ops.iter().any(|o| o.dsts.contains(&Buf::Ssm(0))));
    assert!(p.ops.iter().any(|o| o.dsts.contains(&Buf::KCache(1))));

    let mut p = Program::new();
    let mut f = K3Forward::start(&mut p, &s, &step, 100);
    assert!(f.enter_layer(&mut p, &s, &vec![None]).is_err());
    let mut bare = layer(K3LayerKind::Kda);
    bare.ssm_f_b = false;
    let mut f = K3Forward::start(&mut p, &s, &step, 100);
    assert!(f.enter_layer(&mut p, &s, &vec![Some(bare)]).is_err());
}

#[test]
fn a_layer_that_fails_keeps_what_it_had_stored() {
    let s = shape();
    let step = TokenStep { token: 5, pos: 3, rows: 1 };
    let written = |p: &Program<Buf, Kernel>, b: Buf| p.ops.iter().any(|o| o.dsts.contains(&b));
    let fail = |w: KimiK3W, ctx: u32| {
        let mut p = Program::new();
        let mut f = K3Forward::start(&mut p, &s, &step, ctx);
        let e = f.enter_layer(&mut p, &s, &vec![Some(w)]).err().unwrap();
        (p, e)
    };
    // the row of the token is in both caches before the weights to attend with are looked for
    let mut w = layer(K3LayerKind::Mla);
    w.mla_wk_b = false;
    w.mla_wv_b = false;
    let (p, e) = fail(w, 100);
    assert_eq!(e, "K3 MLA: neither split (wk_b/wv_b) nor fused (wkv_b) path available");
    assert!(written(&p, Buf::KCache(0)) && written(&p, Buf::VCache(0)));
    assert!(!written(&p, Buf::ShexpOut));
    let (p, e) = fail(w, 3);
    assert_eq!(e, "K3 MLA position 3 exceeds context 3");
    assert!(!written(&p, Buf::KCache(0)));
    w.mla_wo = None;
    let (p, e) = fail(w, 100);
    assert_eq!(e, "MLA layer missing mla_wo");
    assert!(!written(&p, Buf::Latent));

    // delta attention moves its windows on before it looks at the gates
    let mut w = layer(K3LayerKind::Kda);
    w.ssm_beta = quant(0);
    let (p, _) = fail(w, 100);
    assert!(written(&p, Buf::Conv(0, 2)) && !written(&p, Buf::Ssm(0)));
    let mut w = layer(K3LayerKind::Kda);
    w.wv = quant(0);
    let (p, _) = fail(w, 100);
    assert!(!written(&p, Buf::Conv(0, 0)));
    let mut w = layer(K3LayerKind::Kda);
    w.ffn_up = quant(0);
    let (p, _) = fail(w, 100);
    assert!(written(&p, Buf::Ssm(0)) && !written(&p, Buf::FfnOut));
}

#[test]
fn buffers_are_written_out_around_launches() {
    let s = shape();
    let mut p = Program::new();
    let layers = vec![Some(layer(K3LayerKind::Kda)); 3];
    let mut f = K3Forward::start(&mut p, &s, &TokenStep { token: 5, pos: 3, rows: 1 }, 100);
    f.enter_layer(&mut p, &s, &layers).ok().unwrap();
    f.leave_layer(&mut p, &s);
    let names = |v: Vec<Snap>| -> Vec<(String, Buf, u32)> {
        v.iter().map(|x| (format!("{}/{}", x.kind, x.name), x.buf, x.n)).collect()
    };
    let mut all = Vec::new();
    for op in &p.ops {
        all.extend(names(snaps_before(&s, op)));
        all.extend(names(snaps_after(&s, K3LayerKind::Kda, op)));
    }
    let at = |name: &str| all.iter().position(|x| x.0 == name).unwrap();
    assert_eq!(all[at("layer/residual_input")], ("layer/residual_input".to_string(), Buf::Cur, 256));
    assert_eq!(all[at("kda_state/conv_k_before")].2, 128 * 3);
    assert_eq!(all[at("kda_state/conv_k_after")].1, Buf::Conv(0, 1));
    assert_eq!(all[at("kda_state/recurrent_after")], (
        "kda_state/recurrent_after".to_string(),
        Buf::Ssm(0),
        128 * 64
    ));
    assert_eq!(at("kda_state/recurrent_after") + 1, at("kda/recurrent_output"));
    assert!(at("kda/q_projection") < at("kda/q_sconv_residual"));
    assert!(at("kda/q_conv_output") < at("kda/q_normed"));
    assert_eq!(all[all.len() - 2].0, "layer/layer_output");
    assert_eq!(all[all.len() - 1], ("layer/hidden".to_string(), Buf::Cur, 256));
    // a gate is that of delta attention only in a layer that has it
    let gate = p.ops.iter().find(|o| matches!(o.f, Kernel::Sigmoid { .. })).unwrap();
    assert_eq!(snaps_after(&s, K3LayerKind::Kda, gate).len(), 1);
    assert!(snaps_after(&s, K3LayerKind::Mla, gate).is_empty());
}

/// What every buffer holds once a program has run, written out and hashed.
fn play(store: &mut HashMap<String, u64>, p: &Program<Buf, Kernel>) {
    for o in &p.ops {
        let args: Vec<u64> =
            o.args.iter().map(|b| store.get(&format!("{b:?}")).copied().unwrap_or(0)).collect();
        for (part, d) in o.dsts.iter().enumerate() {
            let mut h = DefaultHasher::new();
            format!("{:?} {part} {args:?}", o.f).hash(&mut h);
            store.insert(format!("{d:?}"), h.finish());
        }
    }
}

fn run_batch(store: &mut HashMap<String, u64>, tokens: &[u32], pos0: u32, rows: u32) {
    let s = shape();
    let kinds = vec![K3LayerKind::Kda, K3LayerKind::Mla, K3LayerKind::Kda];
    let layers: Vec<Option<KimiK3W>> = kinds.iter().map(|k| Some(layer(*k))).collect();
    for step in forward_steps(tokens, pos0, rows).ok().unwrap() {
        let mut p = Program::new();
        if step.pos == 0 {
            reset(&mut p, &kinds, &runtime_sizes(&s));
        }
        let mut f = K3Forward::start(&mut p, &s, &step, 100);
        while f.il < s.n_exec_layer {
            if f.enter_layer(&mut p, &s, &layers).ok().unwrap() == Ffn::Routed {
                host_experts(&mut p, &s, true);
                moe_join(&mut p, &s, f.il);
            }
            f.leave_layer(&mut p, &s);
        }
        assert_eq!(f.finish(&mut p, &s).is_some(), step.rows > 0);
        play(store, &p);
    }
}

#[test]
fn a_batch_leaves_what_its_tokens_leave_one_by_one() {
    let lasting = |st: &HashMap<String, u64>| {
        let mut v: Vec<(String, u64)> = st
            .iter()
            .filter(|(b, _)| {
                ["Ssm", "Conv", "KCache", "VCache", "Logits"].iter().any(|n| b.starts_with(n))
            })
            .map(|(b, x)| (b.clone(), *x))
            .collect();
        v.sort();
        v
    };
    let (mut whole, mut alone) = (HashMap::new(), HashMap::new());
    // scratch that an earlier text left behind does not matter
    alone.insert("MixOut".to_string(), 77);
    alone.insert("Bank(1)".to_string(), 78);
    run_batch(&mut whole, &[5, 6, 7], 0, 3);
    run_batch(&mut alone, &[5], 0, 0);
    let first = lasting(&alone);
    run_batch(&mut alone, &[6], 1, 0);
    run_batch(&mut alone, &[7], 2, 1);
    assert_eq!(lasting(&whole), lasting(&alone));
    assert_ne!(first, lasting(&alone));
    assert!(whole.contains_key("Logits") && whole.contains_key("Ssm(2)") && whole.contains_key("KCache(1)"));
}

#[test]
fn settings_pick_backend_and_accumulation() {
    assert_eq!(k3_expert_backend(Some("cuda")), Backend::Cuda);
    assert_eq!(k3_expert_backend(Some("cpu-q8")), Backend::CpuQ8);
    assert_eq!(k3_expert_backend(Some("CUDA")), Backend::Cpu);
    assert_eq!(k3_expert_backend(None), Backend::Cpu);
    assert_eq!(Backend::CpuQ8.name(), "cpu-q8");
    assert_eq!(k3_accum_mode(Some("serial")), Accumulation::Serial);
    assert_eq!(k3_accum_mode(Some("serial-nofma")), Accumulation::SerialNofma);
    assert_eq!(k3_accum_mode(Some("f64-reference")), Accumulation::F64Reference);
    assert_eq!(k3_accum_mode(None), Accumulation::Current);
    let t = tensors();
    assert_eq!(expert_path(Backend::Cuda, &t.gate, &t.up, &t.down), Path::Gpu);
    let q4 = ExpertTensor { quant: QUANT_Q4_K, ..t.down };
    assert_eq!(expert_path(Backend::Cuda, &t.gate, &t.up, &q4), Path::Host);
    let q3 = ExpertTensor { quant: QUANT_Q3_K, ..t.up };
    assert_eq!(expert_path(Backend::Cuda, &t.gate, &q3, &t.down), Path::Host);
    assert_eq!(expert_path(Backend::CpuQ8, &t.gate, &t.up, &q4), Path::CpuQ8);
    assert_eq!(expert_path(Backend::Cpu, &t.gate, &t.up, &t.down), Path::Host);
}

#[test]
fn selected_experts_are_brought_once() {
    let t = tensors();
    let n = t.gate.expert_bytes as usize;
    let r = resolve_experts(&[2, 0, 2], 4, &t.gate, &t.up, &t.down, Backend::Cuda, 6 * n).ok().unwrap();
    assert_eq!((r.distinct.clone(), r.path), (vec![0, 2], Path::Gpu));
    assert_eq!(r.wants.len(), 6);
    assert_eq!(r.bases, (0..6).map(|i| i * n).collect::<Vec<_>>());
    assert_eq!(
        resolve_experts(&[2, 0], 4, &t.gate, &t.up, &t.down, Backend::Cuda, 6 * n - 1).err(),
        Some(format!("K3 GPU MoE staging too small: need {} bytes, have {}", 6 * n, 6 * n - 1))
    );

    let s = shape();
    let slabs: Vec<Brought> = r.wants.iter().map(|w| Brought { offset: w.offset, len: n }).collect();
    let slots = |v: Vec<pulsar::engine::k3::compute::Job>| {
        v.iter().map(|j| (j.slot, j.expert)).collect::<Vec<_>>()
    };
    assert_eq!(slots(k3_host_moe_compute(&s, &[2, 0], &t, &slabs).ok().unwrap()), vec![(0, 2), (1, 0)]);
    assert_eq!(slots(k3_cpu_q8_moe_compute(&s, &[2, -1], &t, &slabs).ok().unwrap()), vec![(0, 2)]);
    assert_eq!(
        k3_cpu_q8_moe_compute(&s, &[1, 0], &t, &slabs).err(),
        Some("K3 CPU-Q8 gate slab missing".to_string())
    );
    assert_eq!(
        k3_host_moe_compute(&s, &[0, 1], &t, &slabs).err(),
        Some(format!("K3 host MoE: gate slab {n} not resolved"))
    );
    let short: Vec<Brought> = slabs.iter().map(|b| Brought { len: n - 1, ..*b }).collect();
    assert!(k3_host_moe_compute(&s, &[0, 2], &t, &short).is_err());

    let mut p = Program::new();
    let jobs = k3_gpu_moe_compute(&mut p, &s, &[2, 0], 2, &t, &slabs, Accumulation::Current);
    assert_eq!(slots(jobs.ok().unwrap()), vec![(0, 2), (1, 0)]);
    assert!(p.ops.iter().any(|o| o.dsts.contains(&Buf::LatentNormed)));
    let mut p = Program::new();
    assert_eq!(
        k3_gpu_moe_compute(&mut p, &s, &[1], 1, &t, &slabs, Accumulation::Serial).err(),
        Some(format!("K3 CUDA MoE: missing staged gate for expert 1 at {n}"))
    );
}

#[test]
fn eight_bit_products() {
    let x = Q8KRow::new(vec![1.0f32.to_bits()], (0..256).map(|i| (i % 100) as i8 - 50).collect());
    let row: Vec<u8> = (0..84).map(|i| (i * 37) as u8).collect();
    assert_eq!(k3_q8_dot(QUANT_Q2_K, &row, &x, 256).ok(), Some(vec_dot_q2_k_q8_k(&row, &x, 256)));
    assert!(k3_q8_dot(QUANT_Q8_0, &row, &x, 256).is_err());
}

#[test]
fn formats_of_weights() {
    let w = |q: u32| K3DenseWeight::new((), K3WeightQuant { quant: q, row_bytes: 0 });
    assert_eq!(w(QUANT_Q2_K).matmul(), Product::Direct);
    assert_eq!(w(QUANT_Q8_0).matmul(), Product::Q8_0);
    assert_eq!(w(QUANT_Q4_K).matmul(), Product::F32);
    assert_eq!(w(QUANT_Q3_K).matmul_q8k(), Ok(()));
    assert_eq!(
        check_direct(K3WeightQuant { quant: QUANT_Q8_0, row_bytes: 0 }),
        Err("matmul_q8k requires Q2_K/Q3_K, got quant=8".to_string())
    );
    assert_eq!(k3_quant_to_tensor_type(QUANT_Q4_0), Ok(TensorType::Q4_0));
    assert!(k3_quant_to_tensor_type(999).is_err());
}

#[test]
fn sizes_of_the_runtime() {
    let s = shape();
    let z = runtime_sizes(&s);
    assert_eq!((z.conv, z.ssm), (3 * 128 * 4, 64 * 64 * 2 * 4));
    assert_eq!((z.bank_rows, z.bank), (2, 2 * 256 * 4));
    assert_eq!(z.q8k, 2 * 292);
    assert_eq!(layer_state_bytes(&z, K3LayerKind::Kda), (z.conv, z.ssm));
    assert_eq!(layer_state_bytes(&z, K3LayerKind::Mla), (4, 4));
    assert!(scratch_bytes(&s, Buf::Latent).is_some());
    let mut p = Program::new();
    reset(&mut p, &vec![K3LayerKind::Kda, K3LayerKind::Mla], &z);
    let dsts: Vec<Buf> = p.ops.iter().map(|o| o.dsts[0]).collect();
    assert_eq!(dsts, vec![Buf::Conv(0, 0), Buf::Conv(0, 1), Buf::Conv(0, 2), Buf::Ssm(0)]);
    assert_eq!(p.ops[3].f, Kernel::Zero { bytes: z.ssm });
    assert_eq!(q8k_size(257), 2 * 292);
    assert_eq!(grown_scratch(&s, 292, 1024, 292, 1024), vec![]);
    assert_eq!(grown_scratch(&s, 0, 1024, 292, 0), vec![(Buf::Q8k, 292), (Buf::ExpertDown, 1024)]);
}

#[test]
fn comparisons_are_filtered() {
    let all = Filters { dir: true, layers: None, backends: None, operations: None, ranks: None, ids: None };
    assert!(all.k3_compare_active(0, 5, Backend::Cpu) && all.k3_compare_accum_enabled());
    assert!(!all.k3_compare_active(1, 5, Backend::Cpu));
    let off = Filters { dir: false, ..all };
    assert!(!off.k3_compare_active(0, 5, Backend::Cpu));
    let some = Filters {
        dir: true,
        layers: Some("1, 5 ,x"),
        backends: Some("cuda,cpu-q8"),
        operations: Some("gate, up"),
        ranks: Some("0,2"),
        ids: Some("-1,7"),
    };
    assert!(some.k3_compare_enabled(0, 5) && !some.k3_compare_enabled(0, 2));
    assert!(some.k3_compare_backend_enabled(Backend::CpuQ8) && !some.k3_compare_backend_enabled(Backend::Cpu));
    assert!(some.k3_compare_operation_enabled("up") && !some.k3_compare_operation_enabled("down"));
    assert!(Filters { operations: Some("*"), ..all }.k3_compare_operation_enabled("down"));
    assert!(some.k3_compare_expert(2, 7) && some.k3_compare_expert(0, -1));
    assert!(!some.k3_compare_expert(1, 7) && !some.k3_compare_expert(2, 8));
    assert!(!some.k3_compare_accum_enabled());
}

#[test]
fn names_and_lines_of_dumps() {
    assert_eq!(k3_fnv1a(b""), "fnv1a64:cbf29ce484222325");
    assert_eq!(k3_fnv1a(b"a"), "fnv1a64:af63dc4c8601ec8c");
    assert_eq!(k3_fnv1a(b"foobar"), "fnv1a64:85944171f73967e8");
    assert_eq!(dump_file_name("kda", 7, "q", "f32"), "kda_007_q.f32");
    assert_eq!(packed_file_name(12, 3, "w"), "layer_012_token_003_w.bin");
    assert_eq!(state_slot_of("kda", "recurrent"), "none");
    assert_eq!(state_slot_of("kda_state", "recurrent_out"), "ssm");
    assert_eq!(state_slot_of("kda_state", "conv_q"), "q");
    let l = manifest_line(Backend::Cuda, 4, "gate", "[1,2]", 0, "none", "f32", "x.f32");
    assert!(l.starts_with("{\"backend\":\"cuda\",\"layer\":4,\"operation\":\"gate\",\"shape\":[1,2],"));
    assert!(l.ends_with("\"file\":\"x.f32\"}\n"));
    let doc: serde_json::Value = serde_json::from_str(&l).unwrap();
    assert_eq!(doc["token_position"], 0);
    let p = Packed {
        backend: Backend::CpuQ8,
        layer: 4,
        step: 0,
        rank: 1,
        expert: 9,
        slot: 2,
        name: "gate",
        dtype: "q2_k",
        quantization: "Q2_K",
        elements: 256,
        block_count: 1,
        stride: 84,
        source: "disk",
    };
    let doc: serde_json::Value = serde_json::from_str(&p.line(b"a")).unwrap();
    assert_eq!(doc["backend"], "cpu-q8");
    assert_eq!(doc["packed_bytes"], 1);
    assert_eq!(doc["hash"], "fnv1a64:af63dc4c8601ec8c");
    assert_eq!(doc["file"], "layer_004_token_000_gate.bin");
}

#[test]
fn differences() {
    assert_eq!(first_mismatch(&[1, 2, 3], &[1, 2, 3, 4]), None);
    assert_eq!(first_mismatch(&[1, 2, 3], &[1, 5, 3]), Some(1));
    assert_eq!(neighbours(1, 10, 10), (0, 4));
    assert_eq!(neighbours(5, 7, 10), (3, 7));
    assert_eq!(saturated(&[127, -128, -127, 0]), 2);
    let t = tensor(0, QUANT_Q2_K, 0);
    assert_eq!(weight_counts(&t, 256, 840), (10, 2560));
    let t = ExpertTensor { row_bytes: 220, ..tensor(0, QUANT_Q3_K, 0) };
    assert_eq!(weight_counts(&t, 512, 440), (4, 1024));
    let t = ExpertTensor { row_bytes: 0, ..tensor(0, QUANT_Q2_K, 0) };
    assert_eq!(weight_counts(&t, 3, 840), (10, 2520));
}

#[test]
fn a_comparison_ends_at_its_layer() {
    assert_eq!(k3_compare_boundary(None, true, 0), Boundary::Away);
    assert_eq!(k3_compare_boundary(Some("7"), true, 6), Boundary::Away);
    assert_eq!(k3_compare_boundary(Some("7"), false, 7), Boundary::Reached);
    assert_eq!(k3_compare_boundary(Some("7"), true, 7), Boundary::Stop);
    assert_eq!(k3_compare_boundary(Some("+07"), true, 7), Boundary::Stop);
    assert_eq!(k3_compare_boundary(Some(" 7"), true, 7), Boundary::Away);
}

#[test]
fn shapes_beyond_their_counters_are_refused() {
    assert!(shape().fits());
    assert!(!K3Shape { n_head: 1 << 16, kda_head_dim: 1 << 16, ..shape() }.fits());
    assert!(!K3Shape { qk_nope: u32::MAX, ..shape() }.fits());
    assert!(!K3Shape { n_exec_layer: u32::MAX, ..shape() }.fits());
    assert!(!K3Shape { moe_latent_size: u32::MAX, n_ff_exp: 2, ..shape() }.fits());
    assert!(K3Shape { n_exec_layer: u32::MAX - 1, attn_res_block_size: u32::MAX, ..shape() }.fits());
    assert!(K3Shape { ssm_conv_k: (1 << 25), ..shape() }.fits());
    assert!(!K3Shape { ssm_conv_k: (1 << 25) + 2, ..shape() }.fits());
    assert!(fits_memory(&shape()));
    let wide = K3Shape { n_head: 1 << 16, kda_head_dim: 1 << 16, ..shape() };
    assert!(fits_memory(&wide));
    assert_eq!(scratch_bytes(&wide, Buf::KdaQ), Some(1 << 34));
    assert_eq!(runtime_sizes(&wide).ssm, 1 << 50);
    assert!(!fits_memory(&K3Shape { n_head: 1 << 31, kda_head_dim: 1 << 31, ..shape() }));
    assert!(!fits_memory(&K3Shape { qk_nope: u32::MAX, ..shape() }));
    let deep = K3Shape { n_exec_layer: u32::MAX, n_embd: u32::MAX, attn_res_block_size: 1, ..shape() };
    assert!(!fits_memory(&deep));
    assert!(fits_memory(&K3Shape { attn_res_block_size: 4, ..deep }));
    assert!(tensors().fits(100));
    let mut far = tensors();
    far.up.abs_offset = u64::MAX - 256 * 84;
    assert!(far.fits(1) && !far.fits(2));
}
