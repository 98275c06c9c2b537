//! Delta-rule layers, verification, rollback and drafting.

use pulsar::engine::hybrid::dsv4::forward::Step;
use pulsar::engine::hybrid::kernels::{Buf, DraftBuf, Kernel, Weight};
use pulsar::engine::hybrid::qwen35::draft::{dflash_draft, DraftModel};
use pulsar::engine::hybrid::qwen35::forward::{check_forward, enter, finish, forward_chunks};
use pulsar::engine::hybrid::qwen35::generate::{
    accept, argmax, argmax_rows, drafted, emit_round, Generation,
};
use pulsar::engine::hybrid::qwen35::layer::{feature_of, mix, route, At, LayerRt, LayerW, Qwen35W};
use pulsar::engine::hybrid::qwen35::rollback::{reset, restore, rollback_to, snapshot};
use pulsar::engine::hybrid::qwen35::runtime::{
    gdn_layers, ring_bytes, runtime_sizes, state_sizes,
};
use pulsar::engine::hybrid::shape::Shape;
use pulsar::engine::program::Program;
use pulsar::gguf::writer::write_header;
use pulsar::gguf::{Gguf, Value};

fn bits(v: &[f32]) -> Vec<u32> {
    v.iter().map(|x| x.to_bits()).collect()
}

fn shape() -> Shape {
    Shape {
        n_exec_layer: 8,
        n_embd: 64,
        n_vocab: 100,
        n_head: 4,
        n_head_kv: 2,
        head_dim: 32,
        rot_dim: 8,
        n_expert: 8,
        n_expert_used: 2,
        n_ff_exp: 256,
        n_lora_q: 0,
        n_swa: 0,
        n_hc: 0,
        hc_sinkhorn: 0,
        n_out_group: 0,
        n_idx_head: 0,
        n_idx_dim: 0,
        n_idx_topk: 0,
        ssm_k_heads: 2,
        ssm_v_heads: 4,
        ssm_state: 16,
        ssm_conv_k: 4,
        full_attn_interval: 4,
    }
}

#[test]
fn the_last_layer_of_every_interval_attends() {
    let s = shape();
    assert_eq!(gdn_layers(&s), vec![true, true, true, false, true, true, true, false]);
    let z = runtime_sizes(&s);
    assert_eq!(state_sizes(&s), (4 * 4 * 16 * 16, 4 * 3 * (2 * 32 + 64)));
    assert_eq!((z.qkv, z.key, z.value, z.small), (64 * 128, 64 * 32, 64 * 64, 64 * 4));
    assert_eq!((z.qfull, z.gate, z.shg), (64 * 256, 64 * 128, 64));
    assert_eq!(ring_bytes(&s, 3), 256 * 3 * 64 * 4);
    assert_eq!(feature_of(&vec![9, 4, 7], 4), Some(1));
    assert_eq!(feature_of(&vec![9, 4, 7], 5), None);
}

#[test]
fn batches_are_checked_and_cut() {
    assert_eq!(check_forward(0, 0, 1, 10, true), Err("empty batch".to_string()));
    assert_eq!(check_forward(1, 0, 17, 10, true), Err("qwen35: rows exceeds the verify chunk".to_string()));
    assert_eq!(check_forward(5, 6, 1, 10, true), Err("position exceeds context".to_string()));
    assert_eq!(check_forward(5, 5, 1, 10, false), Err("qwen35 state missing".to_string()));
    assert_eq!(check_forward(5, 5, 16, 10, true), Ok(()));
    assert_eq!(
        forward_chunks(33),
        vec![Step { from: 0, t: 16 }, Step { from: 16, t: 16 }, Step { from: 32, t: 1 }]
    );
    let s = shape();
    let mut p = Program::new();
    enter(&mut p, &s, &Step { from: 16, t: 5 });
    assert_eq!(finish(&mut p, &s, 5, 6), Err("qwen35: rows exceeds the final chunk".to_string()));
    assert_eq!(finish(&mut p, &s, 5, 2), Ok(()));
    let k: Vec<Kernel> = p.ops.iter().map(|o| o.f).collect();
    assert_eq!(k[0], Kernel::WriteTokens { from: 16, t: 5 });
    assert_eq!(k[2], Kernel::Rows { from: 3, rows: 2, n: 64 });
    assert_eq!(k[4], Kernel::Head { rows: 2 });
}

fn gdn() -> LayerW {
    LayerW { attn: Some(Qwen35W { gdn: true, attn: false }), moe: Some(true) }
}

#[test]
fn a_delta_rule_layer_keeps_what_a_replay_needs() {
    let s = shape();
    let a = At { il: 1, pos: 40, t: 3, ctx: 100 };
    let rt = LayerRt { state: true, keep: true, stash: true, feature: Some((1, 2)) };
    let mut p = Program::new();
    assert_eq!(mix(&mut p, &s, &gdn(), &rt, &a), Ok(()));
    let writes = |b: Buf| p.ops.iter().any(|o| o.dsts.contains(&b));
    for b in [Buf::StashQkv(1), Buf::StashG(1), Buf::StashBeta(1), Buf::GdnS(1), Buf::GdnConv(1), Buf::Ring] {
        assert!(writes(b), "{b:?}");
    }
    assert!(p.ops.iter().any(|o| matches!(
        o.f,
        Kernel::RingScatter { pos: 40, cap: 256, t: 3, n: 64, stride: 128, at: 64 }
    )));
    let mut q = Program::new();
    let plain = LayerRt { keep: false, feature: None, ..rt };
    assert_eq!(mix(&mut q, &s, &gdn(), &plain, &a), Ok(()));
    assert!(!q.ops.iter().any(|o| o.dsts.contains(&Buf::StashQkv(1)) || o.dsts.contains(&Buf::Ring)));

    assert_eq!(route(&mut q, &s, &gdn(), &a), Ok(()));
}

#[test]
fn a_layer_that_fails_leaves_its_states() {
    let s = shape();
    let a = At { il: 1, pos: 40, t: 3, ctx: 100 };
    let rt = LayerRt { state: true, keep: true, stash: true, feature: Some((1, 2)) };
    let written = |p: &Program<Buf, Kernel>, b: Buf| p.ops.iter().any(|o| o.dsts.contains(&b));
    let mut p = Program::new();
    assert_eq!(
        mix(&mut p, &s, &LayerW { attn: None, moe: None }, &rt, &a),
        Err("qwen35 layer without Qwen35 attn weights".to_string())
    );
    assert!(p.ops.is_empty());
    let neither = LayerW { attn: Some(Qwen35W { gdn: false, attn: false }), moe: None };
    assert_eq!(
        mix(&mut p, &s, &neither, &rt, &a),
        Err("qwen35 layer with neither attn nor gdn".to_string())
    );
    assert_eq!(p.ops.len(), 2);
    assert!(written(&p, Buf::Ring) && written(&p, Buf::Normed));

    let mut p = Program::new();
    let stashless = LayerRt { stash: false, ..rt };
    assert_eq!(mix(&mut p, &s, &gdn(), &stashless, &a), Err("stash missing".to_string()));
    assert!(!written(&p, Buf::StashQkv(1)) && !written(&p, Buf::GdnS(1)));
    let mut p = Program::new();
    let stateless = LayerRt { state: false, ..rt };
    assert_eq!(mix(&mut p, &s, &gdn(), &stateless, &a), Err("gdn state missing".to_string()));
    assert!(written(&p, Buf::StashQkv(1)) && written(&p, Buf::StashBeta(1)));
    assert!(!written(&p, Buf::GdnS(1)) && !written(&p, Buf::GdnConv(1)));

    let mut p = Program::new();
    assert_eq!(
        route(&mut p, &s, &LayerW { moe: None, ..gdn() }, &a),
        Err("qwen35 layer without MoE ffn".to_string())
    );
    assert_eq!(p.ops.len(), 1);
    assert_eq!(p.ops[0].dsts, vec![Buf::Normed]);
}

#[test]
fn states_are_cleared_kept_and_replayed() {
    let s = shape();
    let states = vec![true, false, true];
    let layers = vec![gdn(), gdn(), gdn()];
    let mut p = Program::new();
    reset(&mut p, &states, 10, 20);
    let dsts: Vec<Buf> = p.ops.iter().map(|o| o.dsts[0]).collect();
    assert_eq!(dsts, vec![Buf::GdnS(0), Buf::GdnConv(0), Buf::GdnS(2), Buf::GdnConv(2)]);
    assert_eq!(p.ops[0].f, Kernel::Zero { count: 10 });

    let mut p = Program::new();
    assert_eq!(snapshot(&mut p, &states, 10, 20, false), Err("dflash not enabled".to_string()));
    assert_eq!(snapshot(&mut p, &states, 10, 20, true), Ok(()));
    assert_eq!(p.ops[0].dsts, vec![Buf::SnapS(0)]);
    assert_eq!(p.ops[0].args, vec![Buf::GdnS(0)]);
    assert_eq!(restore(&mut p, &states, 10, 20, false), Err("dflash not enabled".to_string()));
    assert_eq!(restore(&mut p, &states, 10, 20, true), Ok(()));
    assert_eq!(p.ops.len(), 8);
    assert_eq!((p.ops[4].dsts[0], p.ops[4].args[0]), (Buf::GdnS(0), Buf::SnapS(0)));
    assert_eq!((p.ops[7].dsts[0], p.ops[7].args[0]), (Buf::GdnConv(2), Buf::SnapConv(2)));

    let mut p = Program::new();
    assert_eq!(rollback_to(&mut p, &s, &states, &layers, 0, 10, 20, true), Ok(()));
    assert_eq!(p.ops.len(), 4);
    let mut p = Program::new();
    assert_eq!(rollback_to(&mut p, &s, &states, &layers, 2, 10, 20, true), Ok(()));
    assert!(p.ops.iter().any(|o| o.f == Kernel::GdnBatch { v_heads: 4, k_heads: 2, state: 16, t: 2 }));
    assert!(p.ops.iter().any(|o| o.args.contains(&Buf::StashQkv(2))));
    let bare = vec![gdn(), gdn(), LayerW { attn: None, moe: None }];
    let mut p = Program::new();
    assert_eq!(
        rollback_to(&mut p, &s, &states, &bare, 2, 10, 20, true),
        Err("qwen35 layer expected".to_string())
    );
    let last = &p.ops[p.ops.len() - 1];
    assert_eq!((last.dsts[0], last.args[0]), (Buf::GdnConv(2), Buf::SnapConv(2)));
    assert!(p.ops.iter().any(|o| o.args.contains(&Buf::StashQkv(0))));
    assert!(!p.ops.iter().any(|o| o.args.contains(&Buf::StashQkv(2))));
    let attn = vec![gdn(), gdn(), LayerW { attn: Some(Qwen35W { gdn: false, attn: true }), moe: None }];
    assert_eq!(
        rollback_to(&mut Program::new(), &s, &states, &attn, 2, 10, 20, true),
        Err("gdn weights missing".to_string())
    );
    assert_eq!(
        rollback_to(&mut Program::new(), &s, &states, &attn, 2, 10, 20, false),
        Err("dflash not enabled".to_string())
    );
}

#[test]
fn the_greatest_logit_wins() {
    let v = bits(&[0.0, 3.0, 3.0, f32::NAN, -1.0, 5.0]);
    assert_eq!(argmax(&v, 0, 3), 1);
    assert_eq!(argmax(&v, 0, 6), 5);
    assert_eq!(argmax_rows(&v, 2, 3), vec![1, 0]);
    assert_eq!(argmax_rows(&bits(&[1.0, 2.0, 9.0, 4.0]), 2, 2), vec![1, 0]);
    assert_eq!(drafted(&bits(&[1.0, 2.0, 9.0, 4.0]), 2, 2, 77), vec![77, 0]);
}

#[test]
fn drafts_are_accepted_as_far_as_the_target_agrees() {
    assert_eq!(accept(&vec![7, 1, 2, 3], &vec![1, 2, 9, 4]), 3);
    assert_eq!(accept(&vec![7, 1], &vec![2, 5]), 1);
    assert_eq!(accept(&vec![7, 1, 2], &vec![1, 2, 3]), 3);
    let r = emit_round(&vec![7, 1, 2], 3, &vec![false, true, false], 10);
    assert_eq!((r.tokens, r.stop), (vec![7], true));
    let r = emit_round(&vec![7, 1, 2], 2, &vec![false; 3], 10);
    assert_eq!((r.tokens, r.stop), (vec![7, 1], false));
    let r = emit_round(&vec![7, 1, 2], 3, &vec![false; 3], 2);
    assert_eq!((r.tokens, r.stop), (vec![7, 1], true));
}

/// Greedy decoding of a toy target.
fn next(text: &[u32]) -> u32 {
    text.iter().fold(11u32, |h, t| h.wrapping_mul(31).wrapping_add(*t)) % 5
}

#[test]
fn speculation_gives_what_greedy_decoding_gives() {
    for wrong in 1..5usize {
        let prompt = vec![3u32, 1];
        let mut text = prompt.clone();
        let mut g = Generation::new(0, 2, next(&text));
        let mut out = Vec::new();
        while g.more(12, 4, 1000) {
            // a draft that follows the target and then errs
            let mut draft = vec![g.last];
            while draft.len() < 4 {
                let t: Vec<u32> = text.iter().chain(&draft).copied().collect();
                let n = next(&t);
                draft.push(if draft.len() >= wrong { n + 100 } else { n });
            }
            let target: Vec<u32> = (0..4)
                .map(|i| {
                    let t: Vec<u32> = text.iter().chain(&draft[..=i]).copied().collect();
                    next(&t)
                })
                .collect();
            let (n, got) = g.round(&draft, &target, &vec![false; 4], 12, 1000);
            assert_eq!(n, wrong.min(4));
            text.extend_from_slice(&draft[..n]);
            out.extend(got);
        }
        let mut plain = prompt.clone();
        for _ in 0..12 {
            let n = next(&plain);
            plain.push(n);
        }
        assert_eq!(out, plain[2..].to_vec());
        assert_eq!((g.emitted, g.stopped), (12, true));
        assert_eq!(g.committed as usize, text.len());
    }
}

#[test]
fn a_generation_stops_where_greedy_decoding_does() {
    let prompt = vec![3u32, 1];
    let mut plain = prompt.clone();
    for _ in 0..40 {
        let n = next(&plain);
        plain.push(n);
    }
    for stop in 0..5u32 {
        let mut text = prompt.clone();
        let mut g = Generation::new(0, 2, next(&text));
        let mut out = Vec::new();
        while g.more(20, 3, 1000) {
            let mut draft = vec![g.last];
            while draft.len() < 3 {
                let t: Vec<u32> = text.iter().chain(&draft).copied().collect();
                draft.push(next(&t));
            }
            let target: Vec<u32> = (0..3)
                .map(|i| {
                    let t: Vec<u32> = text.iter().chain(&draft[..=i]).copied().collect();
                    next(&t)
                })
                .collect();
            let stops: Vec<bool> = draft.iter().map(|t| *t == stop).collect();
            let (n, got) = g.round(&draft, &target, &stops, 20, 1000);
            text.extend_from_slice(&draft[..n]);
            out.extend(got);
        }
        let want: Vec<u32> = plain[2..22].iter().copied().take_while(|t| *t != stop).collect();
        assert_eq!(out, want);
    }
}

#[test]
fn generation_ends_at_a_stop_and_at_the_context() {
    let mut g = Generation::new(0, 5, 9);
    let (n, got) = g.round(&vec![9, 8, 7], &vec![8, 7, 6], &vec![false, true, false], 100, 100);
    assert_eq!((n, got), (3, vec![9]));
    assert!(g.stopped && !g.more(100, 3, 100));
    assert_eq!((g.committed, g.last, g.drafted, g.accepted), (8, 6, 2, 2));
    let g = Generation::new(90, 5, 9);
    assert!(g.more(10, 3, 100));
    assert!(!g.more(10, 4, 100));
    assert!(!g.more(0, 3, 100));
}

fn draft_header(skip: &str, arch: &str, block: u64, ids: Value, factor: f32) -> Gguf {
    let mut m = vec![("general.architecture".to_string(), Value::String(arch.to_string()))];
    for (k, v) in [
        ("block_count", 2u64),
        ("embedding_length", 64),
        ("feed_forward_length", 128),
        ("attention.head_count", 4),
        ("attention.head_count_kv", 2),
        ("attention.key_length", 16),
        ("dflash.block_size", block),
        ("dflash.mask_token_id", 99),
    ] {
        if k != skip {
            m.push((format!("{arch}.{k}"), Value::U64(v)));
        }
    }
    m.push((format!("{arch}.rope.scaling.factor"), Value::F32(factor.to_bits())));
    if skip != "ids" {
        m.push((format!("{arch}.dflash.target_layer_ids"), ids));
    }
    Gguf::parse(&write_header(&m, &vec![], 4096).unwrap()).unwrap()
}

#[test]
fn draft_headers() {
    let ids = || Value::Array(vec![Value::U64(1), Value::U64(3), Value::U64(6)]);
    let d = DraftModel::load("d.gguf", &draft_header("", "dflash-draft", 8, ids(), 1.0)).ok().unwrap();
    assert_eq!((d.n_layer, d.n_embd, d.ff, d.n_head), (2, 64, 128, 4));
    assert_eq!((d.n_kv, d.head_dim, d.block_size, d.mask_id), (2, 16, 8, 99));
    assert_eq!(d.layer_ids, vec![1, 3, 6]);
    assert_eq!((f32::from_bits(d.rope_base), d.yarn), (1.0e7, None));
    let d = DraftModel::load("d.gguf", &draft_header("", "dflash-draft", 16, ids(), 4.0)).ok().unwrap();
    assert_eq!(d.yarn, Some((4.0f32.to_bits(), 4096)));
    let fault = |g: Gguf| DraftModel::load("d.gguf", &g).err().unwrap();
    assert_eq!(fault(draft_header("", "llama", 8, ids(), 1.0)), "d.gguf: not a dflash-draft gguf");
    assert_eq!(
        fault(draft_header("attention.key_length", "dflash-draft", 8, ids(), 1.0)),
        "draft gguf missing attention.key_length"
    );
    assert_eq!(
        fault(draft_header("ids", "dflash-draft", 8, ids(), 1.0)),
        "draft gguf missing dflash.target_layer_ids"
    );
    assert_eq!(
        fault(draft_header("", "dflash-draft", 8, Value::U64(4), 1.0)),
        "draft gguf missing dflash.target_layer_ids"
    );
    assert_eq!(
        fault(draft_header("", "dflash-draft", 17, ids(), 1.0)),
        "draft block_size exceeds T_MAX"
    );
}

#[test]
fn a_draft_sees_the_window_of_features() {
    let ids = Value::Array(vec![Value::U64(1), Value::U64(3)]);
    let d = DraftModel::load("d", &draft_header("", "dflash-draft", 4, ids, 1.0)).ok().unwrap();
    let s = shape();
    let mut p = Program::new();
    assert_eq!(dflash_draft(&mut p, &d, &s, 300, 7, false, true), Err("qwen35 state missing".to_string()));
    assert_eq!(dflash_draft(&mut p, &d, &s, 300, 7, true, false), Err("dflash not enabled".to_string()));
    assert_eq!(dflash_draft(&mut p, &d, &s, 300, 7, true, true), Ok(()));
    let k: Vec<Kernel> = p.ops.iter().map(|o| o.f).collect();
    assert!(k.contains(&Kernel::RingGather { from: 44, cap: 256, t: 256, n: 128 }));
    assert!(k.contains(&Kernel::WriteBlock { last: 7, mask: 99, t: 4 }));
    assert!(k.contains(&Kernel::DraftAttention { n_head: 4, n_kv: 2, head_dim: 16, t: 4, total: 260 }));
    assert!(k.contains(&Kernel::RmsNorm { w: Weight::DraftOutNorm, width: 64, rows: 4 }));
    assert!(p.ops.iter().any(|o| o.dsts == vec![Buf::Draft(DraftBuf::FeatIn)]));
    assert_eq!(p.ops.last().map(|o| (o.f, o.dsts.clone())), Some((Kernel::Head { rows: 4 }, vec![Buf::Logits])));
}
