//! The hybrid families: selection of experts, their homes, compressor lanes, batches, drafting.

use std::collections::HashMap;

use pulsar::engine::experts::{
    distinct_experts, drop_repeats, expert_triples, slab_offsets, stage_layout, ExpertTensor,
};
use pulsar::engine::hybrid::dsv4::forward::{
    check_forward, enter, finish, forward_steps, Step,
};
use pulsar::engine::hybrid::dsv4::lanes::{ends_window, lane_size, window_start, CompLane};
use pulsar::engine::hybrid::dsv4::layer::{attention, attend_selected, router, At, Dsv4W, LayerRt, LayerW};
use pulsar::engine::hybrid::dsv4::runtime::{cap_of, layer_sizes, new_layers, reset, runtime_sizes};
use pulsar::engine::hybrid::groups::{group_slots, grouped};
use pulsar::engine::hybrid::kernels::{Buf, Half, Kernel, TierBuf, Weight};
use pulsar::engine::hybrid::moe::{dsv4_moe, Launch};
use pulsar::engine::hybrid::plan::{
    cpu_lane_on, fill_slots, grown_staging, look_up, plan_experts, wanted, ExpertPtrs, Experts,
    Holdings, Home,
};
use pulsar::engine::hybrid::select::{gather, indexer_allowed, route, topk_desc, NEG_INF};
use pulsar::engine::hybrid::shape::Shape;
use pulsar::engine::program::Program;
use pulsar::fp::f16_round;
use pulsar::stream::plan::Read;

fn bits(v: &[f32]) -> Vec<u32> {
    v.iter().map(|x| x.to_bits()).collect()
}

fn shape() -> Shape {
    Shape {
        n_exec_layer: 8,
        n_embd: 64,
        n_vocab: 100,
        n_head: 4,
        n_head_kv: 1,
        head_dim: 32,
        rot_dim: 8,
        n_expert: 8,
        n_expert_used: 2,
        n_ff_exp: 256,
        n_lora_q: 16,
        n_swa: 128,
        n_hc: 4,
        hc_sinkhorn: 20,
        n_out_group: 2,
        n_idx_head: 2,
        n_idx_dim: 128,
        n_idx_topk: 5,
        ssm_k_heads: 0,
        ssm_v_heads: 0,
        ssm_state: 0,
        ssm_conv_k: 0,
        full_attn_interval: 0,
    }
}

fn tensor(abs_offset: u64) -> ExpertTensor {
    ExpertTensor { abs_offset, expert_bytes: 100, row_bytes: 10, quant: 16 }
}

fn experts() -> Experts {
    Experts { gate: tensor(0), up: tensor(10_000), down: tensor(20_000), n_expert: 8 }
}

/// A map that holds the slabs of the given experts; handles are offsets plus `add`.
fn holding(list: &[i32], add: u64) -> HashMap<u64, u64> {
    let x = experts();
    let mut m = HashMap::new();
    for &e in list {
        let o = slab_offsets(e, &x.gate, &x.up, &x.down, x.n_expert);
        for k in [o.gate, o.up, o.down] {
            m.insert(k, k + add);
        }
    }
    m
}

#[test]
fn best_scores_first() {
    let s = bits(&[0.5, 2.0, -1.0, 2.0, f32::NAN, 1.0]);
    assert_eq!(topk_desc(&s, 3), vec![1, 3, 5]);
    assert_eq!(topk_desc(&bits(&[1.0]), 3), vec![0, -1, -1]);
    assert_eq!(topk_desc(&s, 0), Vec::<i32>::new());
}

#[test]
fn hashed_tokens_take_their_experts_from_the_table() {
    let s = bits(&[0.1, 0.4, 0.3, 0.2]);
    assert_eq!(route(&s, None, 7, 2), Ok(vec![1, 2]));
    let table = vec![0, 1, 3, 0];
    assert_eq!(route(&s, Some(&table), 1, 2), Ok(vec![3, 0]));
    let stray = vec![0, 4];
    assert_eq!(
        route(&s, Some(&stray), 0, 2),
        Err("hash-selected expert outside router range".to_string())
    );
    assert_eq!(gather(&s, &vec![3, 0]), vec![s[3], s[0]]);
}

#[test]
fn indexer_allowed_masks_to_top_k() {
    let n_comp = 10usize;
    let top_k = 3usize;
    let n_head = 4usize;
    let hd = 128usize;
    let q: Vec<f32> = (0..n_head * hd).map(|i| (i as f32 * 0.017).sin()).collect();
    let cache: Vec<f32> = (0..n_comp * hd).map(|i| (i as f32 * 0.031).cos()).collect();
    let scores: Vec<f32> = (0..n_comp)
        .map(|c| {
            (0..n_head)
                .map(|h| (0..hd).map(|d| q[h * hd + d] * cache[c * hd + d]).sum::<f32>().max(0.0))
                .sum()
        })
        .collect();
    let mask = indexer_allowed(&bits(&scores), top_k).expect("n_comp > top_k selects");
    assert_eq!(mask.iter().filter(|&&m| m == 1).count(), top_k);
    // all-visible fast path
    assert!(indexer_allowed(&bits(&scores[..top_k]), top_k).is_none());
    let mask = indexer_allowed(&bits(&[1.0, 3.0, 3.0, 2.0]), 2).unwrap();
    assert_eq!(mask, vec![0, 1, 1, 0]);
    assert_eq!(f32::from_bits(NEG_INF), -1.0e30);
}

#[test]
fn an_expert_has_one_home() {
    let x = experts();
    let at = |e: i32| slab_offsets(e, &x.gate, &x.up, &x.down, x.n_expert);
    let ptrs = |e: i32, add: u64| ExpertPtrs {
        gate: at(e).gate + add,
        up: at(e).up + add,
        down: at(e).down + add,
    };
    let mut h = Holdings {
        tiers: vec![holding(&[1], 7), holding(&[1, 2], 9)],
        dev: holding(&[3], 0),
        draft: holding(&[5], 0),
        host: holding(&[2, 3, 4, 5], 11),
        cpu_on: true,
        steal: false,
    };
    assert_eq!(h.home_of(at(1)), Home::Tier(0, ptrs(1, 7)));
    assert_eq!(h.home_of(at(2)), Home::Tier(1, ptrs(2, 9)));
    assert_eq!(h.home_of(at(3)), Home::Primary);
    assert_eq!(h.home_of(at(4)), Home::Host(ptrs(4, 11)));
    assert_eq!(h.home_of(at(5)), Home::Primary);
    assert_eq!(h.home_of(at(6)), Home::Primary);

    let p = plan_experts(&[4, 1, 3, 4, -1, 99], &h, &x);
    assert_eq!(p.lane, vec![(4, ptrs(4, 11))]);
    assert_eq!(p.pins, vec![400, 10_400, 20_400]);
    assert_eq!(p.touched.iter().map(|r| r.offset).collect::<Vec<_>>(), vec![100, 10_100, 20_100]);
    assert_eq!(p.reads.iter().map(|r| r.offset).collect::<Vec<_>>(), vec![300, 10_300, 20_300]);
    assert!(p.reads.iter().all(|r| r.len == 100));

    let resolved = holding(&[3], 1000);
    let s = fill_slots(&[4, 1, 3, 1, -1], &h, &x, &resolved);
    let none = ExpertPtrs { gate: 0, up: 0, down: 0 };
    assert_eq!(s.primary, vec![none, none, ptrs(3, 1000), none, none]);
    assert_eq!(s.tiers[0], vec![none, ptrs(1, 7), none, ptrs(1, 7), none]);
    assert_eq!(s.counts, vec![2, 0]);

    h.steal = true;
    assert_eq!(h.home_of(at(3)), Home::Host(ptrs(3, 11)));
    h.cpu_on = false;
    assert_eq!(h.home_of(at(4)), Home::Primary);
    assert_eq!(look_up(&h.host, at(4)), Some(ptrs(4, 11)));
    assert_eq!(look_up(&h.host, at(1)), None);
}

#[test]
fn the_host_lane() {
    let x = experts();
    assert!(cpu_lane_on(true, 8, false, 256, 512, &x, true, true));
    assert!(!cpu_lane_on(true, 9, false, 256, 512, &x, true, true));
    assert!(!cpu_lane_on(true, 8, true, 256, 512, &x, true, true));
    assert!(!cpu_lane_on(true, 8, false, 255, 512, &x, true, true));
    let odd = Experts { up: ExpertTensor { quant: 10, ..x.up }, ..x };
    assert!(!cpu_lane_on(true, 8, false, 256, 512, &odd, true, true));
    let reads = vec![Read { offset: 1, len: 2 }, Read { offset: 3, len: 4 }];
    assert_eq!(wanted(&reads, &vec![true, false], false), vec![reads[1]]);
    assert_eq!(wanted(&reads, &vec![true, false], true), reads);
    assert_eq!(grown_staging(100, 28, 127), Some(128));
    assert_eq!(grown_staging(100, 28, 128), None);
}

#[test]
fn distinct_experts_and_their_reads() {
    assert_eq!(distinct_experts(&[5, 1, 5, -1, 8, 0], 8), vec![0, 1, 5]);
    let x = experts();
    let r = expert_triples(&vec![2], &x.gate, &x.up, &x.down, 8);
    assert_eq!(
        r,
        vec![
            Read { offset: 200, len: 100 },
            Read { offset: 10_200, len: 100 },
            Read { offset: 20_200, len: 100 }
        ]
    );
    let twice = vec![r[0], r[0], r[1], r[0]];
    assert_eq!(drop_repeats(&twice), vec![r[0], r[1], r[0]]);
    assert_eq!(stage_layout(&r), (vec![0, 100, 200], 300));
}

#[test]
fn slots_are_grouped_by_expert() {
    let p = |g: u64| ExpertPtrs { gate: g, up: g + 1, down: g + 2 };
    let none = ExpertPtrs { gate: 0, up: 0, down: 0 };
    let g = group_slots(&vec![p(10), none, p(20), p(10), none, p(20)], 2);
    assert_eq!(g.ptrs, vec![p(10), p(20)]);
    assert_eq!(g.starts, vec![0, 2, 4]);
    // slot 0 is token 0 place 0, slot 3 token 1 place 1; slot 2 token 1 place 0, slot 5 token 2 place 1
    assert_eq!(g.pairs, vec![0, 1 << 4 | 1, 1 << 4, 2 << 4 | 1]);
    let x = experts();
    assert!(grouped(16, 16, 256, &x, false));
    assert!(!grouped(15, 16, 256, &x, false));
    assert!(!grouped(16, 17, 256, &x, false));
    assert!(!grouped(16, 16, 255, &x, false));
    assert!(!grouped(16, 16, 256, &x, true));
    let wide = Experts { gate: ExpertTensor { row_bytes: 6145, ..x.gate }, ..x };
    assert!(!grouped(16, 16, 256, &wide, false));
}

#[test]
fn compressor_emits_on_ratio_boundaries() {
    let ratio = 4u32;
    let hd = 8u32;
    let width = 2 * hd as usize;
    let mut lane = CompLane::new(ratio, hd);
    let ape = vec![0.1f32; width * ratio as usize];
    let mut emitted = 0;
    for pos in 0..8u32 {
        let kv: Vec<f32> = (0..width)
            .map(|j| (pos as f32 + j as f32 * 0.1).sin())
            .collect();
        let base = lane.ape_base(pos);
        let sc: Vec<f32> = (0..width)
            .map(|j| (pos as f32 * 0.3 + j as f32 * 0.05).cos() + ape[base + j])
            .collect();
        let out = lane.feed(&bits(&kv), &bits(&sc), pos);
        if (pos + 1) % ratio == 0 {
            assert!(out, "boundary should emit");
            // the pooled row: a softmax of the scores over the cells of each element
            let row: Vec<f32> = (0..hd as usize)
                .map(|j| {
                    let cells = lane.pool_cells(j);
                    let at = |v: &Vec<u32>, c: usize| f32::from_bits(v[c]);
                    let top = cells.iter().map(|&c| at(&lane.st_sc, c)).fold(f32::MIN, f32::max);
                    let w: Vec<f32> = cells.iter().map(|&c| (at(&lane.st_sc, c) - top).exp()).collect();
                    let sum: f32 = w.iter().sum();
                    let v: f32 = cells.iter().zip(&w).map(|(&c, w)| at(&lane.st_kv, c) * w / sum).sum();
                    f32::from_bits(f16_round(v.to_bits()))
                })
                .collect();
            assert_eq!(row.len(), hd as usize);
            assert!(row.iter().all(|v| v.is_finite()));
            // values are f16-rounded
            for &v in &row {
                assert_eq!(v.to_bits(), f16_round(v.to_bits()));
            }
            lane.shift();
            emitted += 1;
        } else {
            assert!(!out);
        }
    }
    assert_eq!(emitted, 2);
}

#[test]
fn two_windows_are_pooled_at_ratio_four() {
    let mut lane = CompLane::new(4, 1);
    for pos in 0..8u32 {
        let row = [pos * 10, pos * 10 + 1];
        let out = lane.feed(&row, &row, pos);
        if out && pos == 7 {
            let got: Vec<u32> = lane.pool_cells(0).iter().map(|&c| lane.st_kv[c]).collect();
            // first halves of the window before, second halves of the window itself
            assert_eq!(got, vec![0, 41, 10, 51, 20, 61, 30, 71]);
        }
        if out {
            lane.shift();
        }
    }
    lane.reset();
    assert!(lane.st_kv.iter().all(|&v| v == 0) && lane.st_sc.iter().all(|&v| v == NEG_INF));
    let mut wide = CompLane::new(3, 2);
    for pos in 0..3u32 {
        assert_eq!(wide.feed(&[pos, 100 + pos], &[0, 0], pos), pos == 2);
    }
    assert_eq!(wide.pool_cells(1).iter().map(|&c| wide.st_kv[c]).collect::<Vec<_>>(), vec![100, 101, 102]);
    assert_eq!(lane_size(4, 8), (16, 8, 128));
    assert_eq!(lane_size(128, 8), (8, 128, 1024));
    assert!(ends_window(4, 3) && !ends_window(4, 4) && !ends_window(0, 3));
    assert_eq!(window_start(7, 4), 4);
}

#[test]
fn room_for_compressed_rows() {
    let ratios = vec![0, 4, 128, 4];
    assert_eq!(cap_of(&ratios, 1000, 4), 252);
    assert_eq!(cap_of(&ratios, 1000, 1), 1);
    let s = shape();
    let z = runtime_sizes(&s, 252);
    assert_eq!((z.hc, z.mix, z.low, z.allowed), (64 * 256, 64 * 24, 64 * 2048, 252));
    assert_eq!((z.comp_kv, z.comp_sc, z.idx_w, z.coef), (64 * 64, 64 * 64, 8, 64 * 24));
    let a = layer_sizes(&s, 4, 252);
    assert_eq!((a.comp, a.idx, a.idx_cache), (Some(512), Some(2048), 252 * 128 * 4));
    let b = layer_sizes(&s, 128, 252);
    assert_eq!((b.comp, b.idx, b.idx_cache), (Some(128 * 32), None, 4));
    assert_eq!(layer_sizes(&s, 0, 252).comp, None);
    let mut l = new_layers(&ratios, 3);
    assert_eq!(l[1], LayerRt { comp: true, n_comp: 0, idx: true, n_idx_comp: 0 });
    assert_eq!(l[2], LayerRt { comp: true, n_comp: 0, idx: false, n_idx_comp: 0 });
    l[1].n_comp = 9;
    l[1].n_idx_comp = 8;
    reset(&mut l);
    assert_eq!((l[1].n_comp, l[1].n_idx_comp, l[1].comp), (0, 0, true));
}

#[test]
fn batches_are_checked() {
    assert_eq!(check_forward(0, 0, 1, 10, true), Err("empty batch".to_string()));
    assert_eq!(
        check_forward(1, 0, 2, 10, true),
        Err("dsv4: multi-row logits (speculative paths) not supported yet".to_string())
    );
    assert_eq!(check_forward(5, 6, 1, 10, true), Err("position exceeds context".to_string()));
    assert_eq!(check_forward(5, 5, 1, 10, false), Err("dsv4 state missing".to_string()));
    assert_eq!(check_forward(5, 5, 1, 10, true), Ok(()));
}

#[test]
fn batches_run_in_chunks_until_the_indexer_selects() {
    let steps = forward_steps(40, 0, 1000);
    assert_eq!(
        steps,
        vec![Step { from: 0, t: 16 }, Step { from: 16, t: 16 }, Step { from: 32, t: 8 }]
    );
    // from 24 tokens on there may be more rows than the five that a query sees
    let steps = forward_steps(40, 0, 5);
    assert_eq!(steps[0], Step { from: 0, t: 16 });
    assert_eq!(steps.len(), 1 + 16 + 8);
    assert_eq!(steps[1], Step { from: 16, t: 1 });
    assert_eq!(steps[24], Step { from: 39, t: 1 });
}

#[test]
fn residual_streams_begin_as_copies() {
    let s = shape();
    let mut p = Program::new();
    enter(&mut p, &s, &Step { from: 3, t: 2 }, false);
    assert_eq!(p.ops[0].f, Kernel::WriteTokens { from: 3, t: 2 });
    assert_eq!(p.ops[1].f, Kernel::Embed { n_embd: 64, n_vocab: 100, t: 2 });
    let rows: Vec<(u32, u64)> = p
        .ops
        .iter()
        .filter_map(|o| match o.f {
            Kernel::CopyRow { from, to, n: 64 } => Some((from, to)),
            _ => None,
        })
        .collect();
    assert_eq!(rows, vec![(0, 0), (0, 1), (0, 2), (0, 3), (1, 4), (1, 5), (1, 6), (1, 7)]);
    let mut p = Program::new();
    assert!(finish(&mut p, &s, 2, false, true, true).is_ok());
    assert_eq!(p.ops.last().map(|o| o.dsts.clone()), Some(vec![Buf::Logits]));
    let mut p = Program::new();
    assert!(finish(&mut p, &s, 2, false, false, true).is_err());
}

fn launches(p: &Program<Buf, Kernel>) -> Vec<Kernel> {
    p.ops.iter().map(|o| o.f).collect()
}

#[test]
fn an_attention_layer() {
    let s = shape();
    let w = Dsv4W { ratio: 4, comp: Some(64), idx: Some(256) };
    let l = LayerW { attn: Some(w), moe: Some(true) };
    let a = At { il: 2, pos0: 3, t: 1, hc: false };
    let mut rt = LayerRt { comp: true, n_comp: 0, idx: true, n_idx_comp: 0 };
    let mut p = Program::new();
    assert_eq!(attention(&mut p, &s, &l, &mut rt, &a, true), Ok(false));
    assert_eq!((rt.n_comp, rt.n_idx_comp), (1, 1));
    let k = launches(&p);
    assert_eq!(k[0], Kernel::RmsNorm { w: Weight::OnesHc, width: 256, rows: 1 });
    assert_eq!(k[2], Kernel::Sinkhorn { il: 2, half: Half::Attn, n_hc: 4, iters: 20, t: 1 });
    assert!(k.contains(&Kernel::Fp8Sim { head_dim: 32, rot: 8, t: 1 }));
    assert!(k.contains(&Kernel::CompStep {
        il: 2, idx: false, cached: 0, token: 0, width: 64, head_dim: 32, pos: 3, emit: true
    }));
    assert!(k.contains(&Kernel::AttentionAt { il: 2, token: 0, n_raw: 4, n_comp: 1, masked: false }));

    // six rows and a query that sees five: the host selects
    let mut rt = LayerRt { comp: true, n_comp: 6, idx: true, n_idx_comp: 6 };
    let mut p = Program::new();
    let late = At { pos0: 24, ..a };
    assert_eq!(attention(&mut p, &s, &l, &mut rt, &late, true), Ok(true));
    let n = p.ops.len();
    attend_selected(&mut p, &s, &rt, &late);
    assert_eq!(p.ops[n].f, Kernel::WriteMask);
    assert_eq!(
        p.ops[n + 1].f,
        Kernel::AttentionAt { il: 2, token: 0, n_raw: 25, n_comp: 6, masked: true }
    );
    let next = router(&mut p, &s, &l, &w, &late, true).unwrap();
    assert!(next.hc);
    assert_eq!(p.ops.last().map(|o| o.dsts.clone()), Some(vec![Buf::RouterLogits]));

    let fault = |l: &LayerW, rt: LayerRt, ones: bool| {
        let mut rt = rt;
        attention(&mut Program::new(), &shape(), l, &mut rt, &At { il: 2, pos0: 3, t: 1, hc: false }, ones)
    };
    let fresh = LayerRt { comp: true, n_comp: 0, idx: true, n_idx_comp: 0 };
    assert_eq!(fault(&l, fresh, false), Err("ones_hc missing".to_string()));
    assert!(fault(&LayerW { attn: None, moe: None }, fresh, true).is_err());
    assert!(fault(&l, LayerRt { comp: false, ..fresh }, true).is_err());
}

#[test]
fn an_attention_layer_that_fails() {
    let s = shape();
    let l = LayerW {
        attn: Some(Dsv4W { ratio: 4, comp: Some(64), idx: Some(256) }),
        moe: None,
    };
    let w = l.attn.unwrap();
    let a = At { il: 2, pos0: 2, t: 2, hc: false };
    let written = |p: &Program<Buf, Kernel>, b: Buf| p.ops.iter().any(|o| o.dsts.contains(&b));
    let mut rt = LayerRt { comp: false, n_comp: 5, idx: true, n_idx_comp: 6 };
    let mut p = Program::new();
    assert_eq!(
        attention(&mut p, &s, &l, &mut rt, &a, true),
        Err("compressor state missing".to_string())
    );
    // the key of the first token is in the ring, and nothing behind it is
    let keys: Vec<Kernel> =
        p.ops.iter().filter(|o| o.dsts == vec![Buf::KCache(2)]).map(|o| o.f).collect();
    assert_eq!(keys, vec![Kernel::CopyRow { from: 0, to: 2, n: 32 }]);
    assert!(!written(&p, Buf::Heads) && !written(&p, Buf::VCache(2)));
    assert_eq!((rt.n_comp, rt.n_idx_comp), (5, 6));

    let mut rt = LayerRt { comp: true, n_comp: 5, idx: false, n_idx_comp: 6 };
    let mut p = Program::new();
    assert_eq!(
        attention(&mut p, &s, &l, &mut rt, &a, true),
        Err("indexer state missing".to_string())
    );
    assert!(written(&p, Buf::Heads) && written(&p, Buf::VCache(2)));
    assert!(!written(&p, Buf::IdxCache(2)) && !written(&p, Buf::LaneKv(2, true)));
    // the window that ends at position 3 gave a row
    assert_eq!((rt.n_comp, rt.n_idx_comp), (6, 6));

    let mut p = Program::new();
    assert_eq!(
        router(&mut p, &s, &l, &w, &a, true).err(),
        Some("dsv4 layer without MoE ffn".to_string())
    );
    assert!(written(&p, Buf::Hc(true)) && !written(&p, Buf::RouterLogits));
    let mut p = Program::new();
    assert_eq!(
        router(&mut p, &s, &l, &w, &a, false).err(),
        Some("ones_hc missing".to_string())
    );
    assert!(written(&p, Buf::Hc(true)) && !written(&p, Buf::Normed));
}

#[test]
fn experts_are_added_up_over_their_homes() {
    let s = shape();
    let l = Launch { x: experts(), act: 3, t: 2, n_slots: 4 };
    let mut p = Program::new();
    dsv4_moe(&mut p, &s, &l, &vec![], &vec![], false);
    let k = launches(&p);
    assert_eq!(k[0], Kernel::WriteExpertPtrs { n: 4 });
    assert_eq!(p.ops.last().map(|o| o.dsts.clone()), Some(vec![Buf::MoeOut]));
    assert!(!k.iter().any(|f| matches!(f, Kernel::Add { .. })));

    let mut p = Program::new();
    dsv4_moe(&mut p, &s, &l, &vec![3, 0, 1], &vec![2, 0, 0], true);
    let k = launches(&p);
    assert_eq!(k.iter().filter(|f| matches!(f, Kernel::Add { n: 128 })).count(), 3);
    assert!(k.contains(&Kernel::WriteGroups { tier: 0, n_group: 2 }));
    assert!(k.contains(&Kernel::WriteTierPtrs { tier: 2 }));
    assert!(!k.contains(&Kernel::WriteTierPtrs { tier: 1 }));
    assert!(p.ops.iter().any(|o| o.dsts == vec![Buf::Tier(2, TierBuf::Out)]));
}

#[test]
fn shapes_beyond_their_counters_are_told() {
    assert!(shape().fits_dsv4());
    assert!(!Shape { n_swa: 0, ..shape() }.fits_dsv4());
    assert!(!Shape { n_out_group: 0, ..shape() }.fits_dsv4());
    assert!(Shape { n_expert_used: 0, ..shape() }.fits_dsv4());
    assert!(Shape { n_embd: (1 << 28) - 1, n_hc: 4, ..shape() }.fits_dsv4());
    assert!(!Shape { n_embd: 1 << 28, n_hc: 4, ..shape() }.fits_dsv4());
    assert!(!Shape { n_hc: 1 << 16, n_embd: 1 << 16, ..shape() }.fits_dsv4());
    assert!(Shape { n_hc: 1 << 12, n_embd: 1 << 13, ..shape() }.fits_dsv4());
    assert!(Shape { ssm_state: u32::MAX, ssm_v_heads: u32::MAX, ..shape() }.fits_dsv4());

    let delta = Shape {
        n_swa: 0,
        n_hc: 0,
        n_out_group: 0,
        n_idx_head: 0,
        n_idx_dim: 0,
        ssm_k_heads: 2,
        ssm_v_heads: 4,
        ssm_state: 16,
        ssm_conv_k: 4,
        full_attn_interval: 4,
        ..shape()
    };
    assert!(delta.fits_qwen35() && delta.fits_states());
    assert!(!delta.fits_dsv4());
    assert!(Shape { full_attn_interval: 0, ..delta }.fits_qwen35());
    assert!(!Shape { ssm_conv_k: 0, ..delta }.fits_states());
    assert!(Shape { ssm_conv_k: 0, ..delta }.fits_qwen35());
    assert!(!Shape { ssm_state: 1 << 26, ..delta }.fits_qwen35());
    assert!(Shape { ssm_state: 1 << 24, ..delta }.fits_qwen35());
    assert!(!Shape { ssm_state: u32::MAX, ssm_v_heads: u32::MAX, ..delta }.fits_states());
    assert!(!Shape { n_ff_exp: 1 << 28, ..delta }.fits_experts());
    assert!(delta.fits_experts() && shape().fits_experts());
    assert!(experts().fits());
    let far = ExpertTensor { abs_offset: u64::MAX - 800, ..tensor(0) };
    assert!(far.fits(8) && !far.fits(9));
    assert!(!Experts { down: far, n_expert: 9, ..experts() }.fits());
}

/// Weights of selected experts, from their probabilities.
fn routed(
    logits: &[f32],
    bias: &[f32],
    table: Option<&Vec<i32>>,
    k: usize,
    weight_scale: f32,
) -> (Vec<i32>, Vec<f32>) {
    let probs: Vec<f32> = logits.iter().map(|l| l.exp().ln_1p().sqrt()).collect();
    let score: Vec<u32> = probs.iter().zip(bias).map(|(p, b)| (p + b).to_bits()).collect();
    let selected = route(&score, table, 0, k).unwrap();
    let bits: Vec<u32> = probs.iter().map(|p| p.to_bits()).collect();
    let picked = gather(&bits, &selected);
    let sum: f32 = picked.iter().map(|&b| f32::from_bits(b)).sum();
    let weights = picked.iter().map(|&b| f32::from_bits(b) / sum * weight_scale).collect();
    (selected, weights)
}

#[test]
fn route_weights_normalized_and_scaled() {
    let logits: Vec<f32> = (0..256).map(|i| ((i * 37) % 100) as f32 / 25.0 - 2.0).collect();
    let bias: Vec<f32> = (0..256).map(|i| ((i * 17) % 50) as f32 / 100.0).collect();
    let (sel, w) = routed(&logits, &bias, None, 6, 1.5);
    assert_eq!(sel.len(), 6);
    let mut uniq = sel.clone();
    uniq.sort_unstable();
    uniq.dedup();
    assert_eq!(uniq.len(), 6, "distinct experts");
    let sum: f32 = w.iter().sum();
    assert!((sum - 1.5).abs() < 1.0e-4, "weights sum to the scale, got {sum}");
    // the table wins the selection but weights still come from the probabilities
    let table: Vec<i32> = (0..6).collect();
    let (sel2, w2) = routed(&logits, &bias, Some(&table), 6, 1.5);
    assert_eq!(sel2, table);
    let sum2: f32 = w2.iter().sum();
    assert!((sum2 - 1.5).abs() < 1.0e-4);
}
