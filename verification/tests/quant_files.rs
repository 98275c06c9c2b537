//! Rewriting a float file under a recipe: arguments, types, rows, table, header and shards.

use pulsar::fp::{f16_to_f32, f32_to_f16};
use pulsar::gguf::writer::{value_type_id, write_header, write_string, write_value_payload};
use pulsar::gguf::{Error, Gguf, Metadata, TensorInfo, TensorType, Value};
use pulsar::quant::carry::carry;
use pulsar::quant::imatrix::{parse_imatrix, Fault};
use pulsar::quant::pack::pack_q8_0;
use pulsar::quant::recipe::{
    check_source, fit, parse_args, parse_type, required_paths, settle, Args,
};
use pulsar::quant::rewrite::{
    chunks, data_start, next_head, output_alignment, row_weights, rows_of, self_check, tensor_total,
    OutTable, FIRST_HEAD,
};
use pulsar::quant::rows::{quantize_row, row_to_f32, Encoder};
use pulsar::quant::shard::{ensure_shard, shard_fetched, ShardStep};

fn put_str(out: &mut Vec<u8>, s: &str) {
    out.extend_from_slice(&(s.len() as u64).to_le_bytes());
    out.extend_from_slice(s.as_bytes());
}

fn strings(v: &[&str]) -> Vec<String> {
    v.iter().map(|s| s.to_string()).collect()
}

fn parsed(v: &[&str]) -> Result<Args, String> {
    parse_args(&strings(v))
}

/// A block of 32 values: d = amax/127, q = round(x/d).
fn encode_q8_0(x: &[u32], out: &mut Vec<u8>) {
    for b in x.chunks_exact(32) {
        let v: Vec<f32> = b.iter().map(|&w| f32::from_bits(w)).collect();
        let amax = v.iter().fold(0f32, |a, &x| a.max(x.abs()));
        let d = amax / 127.0;
        let id = if d != 0.0 { 1.0 / d } else { 0.0 };
        let q: Vec<i8> = v.iter().map(|x| (x * id).round() as i8).collect();
        pack_q8_0(out, f32_to_f16(d.to_bits()), &q);
    }
}

/// Rewrites a file in memory under the recipe of a command line. Blocks other than `Q8_0` are
/// written as zeros.
fn rewrite(input: &[u8], args: &Args) -> Vec<u8> {
    let g = Gguf::parse(input).unwrap();
    let align = output_alignment(g.alignment);
    let total = tensor_total(&g.metadata, g.tensors.len() as u64);
    let start = data_start(args.header_reserve_mb, g.data_offset, total, align);
    let mut table = OutTable::new(align);
    let mut data = Vec::new();
    for t in &g.tensors {
        check_source(&t.name, t.ty).unwrap();
        let ty = settle(args.pick(&t.name, &t.dims), &t.dims, None);
        let (row, rows) = rows_of(&t.dims);
        let src_bytes = t.ty.row_bytes(row).unwrap() as usize;
        let out_bytes = ty.row_bytes(row).unwrap() as usize;
        let at = (g.data_offset + t.offset) as usize;
        let before = data.len();
        for (lo, hi) in chunks(rows as usize, 3) {
            for r in lo..hi {
                let mut x = Vec::new();
                row_to_f32(t.ty, &input[at + r * src_bytes..at + (r + 1) * src_bytes], &mut x).unwrap();
                match quantize_row(ty, &x, false, &mut data).unwrap() {
                    None => {}
                    Some(Encoder::Q8_0) => encode_q8_0(&x, &mut data),
                    Some(_) => data.extend(vec![0u8; out_bytes]),
                }
            }
        }
        let n = (data.len() - before) as u64;
        let pad = table.push(t.name.clone(), t.dims.clone(), ty, n);
        data.extend(vec![0u8; pad as usize]);
    }
    let mut out = write_header(&carry(&g.metadata), &table.tensors, start).unwrap();
    assert_eq!(out.len() as u64, start);
    out.extend(data);
    let again = Gguf::parse(&out).unwrap();
    self_check(again.tensors.len(), table.tensors.len()).unwrap();
    out
}

#[test]
fn quantize_tiny_model() {
    // source values: deterministic, smooth-ish
    let width = 512usize;
    let rows = 8usize;
    let vals: Vec<f32> = (0..width * rows)
        .map(|i| ((i as f32) * 0.37).sin() * 0.8)
        .collect();
    let bias: Vec<f32> = (0..width).map(|i| i as f32 * 0.001).collect();

    // ---- hand-build the input gguf (v3)
    let mut h = Vec::new();
    h.extend_from_slice(&0x4655_4747u32.to_le_bytes());
    h.extend_from_slice(&3u32.to_le_bytes());
    h.extend_from_slice(&3u64.to_le_bytes()); // tensors
    h.extend_from_slice(&2u64.to_le_bytes()); // kvs
    put_str(&mut h, "general.architecture");
    h.extend_from_slice(&8u32.to_le_bytes());
    put_str(&mut h, "test");
    put_str(&mut h, "split.count"); // must be stripped by the writer
    h.extend_from_slice(&4u32.to_le_bytes());
    h.extend_from_slice(&1u32.to_le_bytes());

    let bf16_bytes = |v: &[f32]| -> Vec<u8> {
        v.iter()
            .flat_map(|x| ((x.to_bits() >> 16) as u16).to_le_bytes())
            .collect()
    };
    let t_exps = bf16_bytes(&vals);
    let t_attn = bf16_bytes(&vals);
    let f32_bytes: Vec<u8> = bias.iter().flat_map(|x| x.to_le_bytes()).collect();

    // tensor table: offsets relative to data section, 32-aligned
    let mut data = Vec::new();
    let mut offs = Vec::new();
    for t in [&t_exps, &t_attn, &f32_bytes] {
        offs.push(data.len() as u64);
        data.extend_from_slice(t);
        while data.len() % 32 != 0 {
            data.push(0);
        }
    }
    let dims2 = [width as u64, rows as u64];
    for (i, (name, ty, dims)) in [
        ("blk.0.ffn_gate_exps.weight", 30u32, &dims2[..]),
        ("blk.0.attn_q.weight", 30u32, &dims2[..]),
        ("blk.0.attn_norm.weight", 0u32, &dims2[..1]),
    ]
    .iter()
    .enumerate()
    {
        put_str(&mut h, name);
        h.extend_from_slice(&(dims.len() as u32).to_le_bytes());
        for d in *dims {
            h.extend_from_slice(&d.to_le_bytes());
        }
        h.extend_from_slice(&ty.to_le_bytes());
        h.extend_from_slice(&offs[i].to_le_bytes());
    }
    while h.len() % 32 != 0 {
        h.push(0);
    }
    h.extend_from_slice(&data);

    let args = parsed(&[
        "-i", "tiny-BF16.gguf", "-o", "tiny-recipe.gguf", "--map", "_exps.=q2_k", "--default", "q8_0",
    ])
    .ok()
    .unwrap();
    let head = rewrite(&h, &args);

    // ---- parse + verify
    let g = Gguf::parse(&head).unwrap();
    assert_eq!(g.architecture(), Some("test"));
    assert!(
        !g.metadata.contains_key("split.count"),
        "split.* must be stripped"
    );
    let exps = g.tensor("blk.0.ffn_gate_exps.weight").unwrap();
    assert_eq!(exps.ty, TensorType::Q2K);
    let attn = g.tensor("blk.0.attn_q.weight").unwrap();
    assert_eq!(attn.ty, TensorType::Q8_0);
    let norm = g.tensor("blk.0.attn_norm.weight").unwrap();
    assert_eq!(norm.ty, TensorType::F32);

    // dequant the q8_0 tensor and compare
    let start = (g.data_offset + attn.offset) as usize;
    let nblocks = width * rows / 32;
    let mut dec = Vec::with_capacity(width * rows);
    for b in head[start..start + nblocks * 34].chunks_exact(34) {
        let hbits = u16::from_le_bytes([b[0], b[1]]);
        let d = f32::from_bits(f16_to_f32(hbits));
        for i in 0..32 {
            dec.push(d * (b[2 + i] as i8) as f32);
        }
    }
    let rms: f32 = (vals.iter().map(|v| v * v).sum::<f32>() / vals.len() as f32).sqrt();
    let err: f32 = (vals
        .iter()
        .zip(&dec)
        .map(|(a, b)| (a - b) * (a - b))
        .sum::<f32>()
        / vals.len() as f32)
        .sqrt();
    assert!(err / rms < 0.01, "q8_0 rel rmse {}", err / rms);

    // f32 pass-through must be exact
    let nstart = (g.data_offset + norm.offset) as usize;
    let back: Vec<f32> = head[nstart..nstart + width * 4]
        .chunks_exact(4)
        .map(|c| f32::from_le_bytes(c.try_into().unwrap()))
        .collect();
    assert_eq!(back, bias);
}

#[test]
fn target_types() {
    for (s, ty) in [
        ("q8_0", TensorType::Q8_0),
        ("Q2_K", TensorType::Q2K),
        ("q3_k", TensorType::Q3K),
        ("q4_K", TensorType::Q4K),
        ("q5_k", TensorType::Q5K),
        ("q6_k", TensorType::Q6K),
        ("IQ2_XXS", TensorType::IQ2XXS),
        ("f16", TensorType::F16),
        ("F32", TensorType::F32),
    ] {
        assert_eq!(parse_type(s), Ok(ty));
    }
    assert_eq!(
        parse_type("Q9"),
        Err("unknown target type q9 (stage 1: q8_0 q2_k..q6_k f16 f32)".to_string())
    );
}

#[test]
fn command_lines() {
    let a = parsed(&[
        "-i", "in", "-o", "out", "--map", "a=q2_k,b=f16", "--map", "c=q3_k", "--imatrix", "m.dat",
        "--fetch-cmd", "get {}", "--delete-shards", "--header-reserve", "12",
    ])
    .ok()
    .unwrap();
    assert_eq!(required_paths(&a).ok().map(|p| (p.0.as_str(), p.1.as_str())), Some(("in", "out")));
    let maps: Vec<(&str, TensorType)> = a.maps.iter().map(|r| (r.pattern.as_str(), r.ty)).collect();
    assert_eq!(maps, vec![("a", TensorType::Q2K), ("b", TensorType::F16), ("c", TensorType::Q3K)]);
    assert_eq!(a.default_ty, TensorType::Q8_0);
    assert_eq!(a.imatrix.as_deref(), Some("m.dat"));
    assert_eq!(a.fetch_cmd.as_deref(), Some("get {}"));
    assert!(a.delete_shards);
    assert_eq!(a.header_reserve_mb, Some(12));

    let fault = |v: &[&str]| parsed(v).err().unwrap();
    assert_eq!(fault(&["-i"]), "-i needs a value");
    assert_eq!(fault(&["--map", "x"]), "bad --map entry x");
    assert_eq!(fault(&["--map", "x=zz"]), "unknown target type zz (stage 1: q8_0 q2_k..q6_k f16 f32)");
    assert_eq!(fault(&["--frob"]), "unknown arg --frob");
    assert_eq!(fault(&["--header-reserve", "1x"]), "invalid digit found in string");
    assert_eq!(fault(&["--header-reserve", ""]), "cannot parse integer from empty string");
    assert_eq!(
        fault(&["--header-reserve", "18446744073709551616"]),
        "number too large to fit in target type"
    );
    assert_eq!(required_paths(&parsed(&["-o", "x"]).ok().unwrap()).err(), Some("-i required"));
    assert_eq!(required_paths(&parsed(&["-i", "x"]).ok().unwrap()).err(), Some("-o required"));
    assert_eq!(required_paths(&Args::new()).err(), Some("-i required"));
}

#[test]
fn the_first_rule_that_matches_wins() {
    let a = parsed(&["--map", "_exps.=q2_k,ffn=q4_k", "--default", "f16"]).ok().unwrap();
    assert_eq!(a.wanted("blk.0.ffn_up_exps.weight"), TensorType::Q2K);
    assert_eq!(a.wanted("blk.0.ffn_up.weight"), TensorType::Q4K);
    assert_eq!(a.wanted("output.weight"), TensorType::F16);
    assert_eq!(a.pick("blk.0.ffn_norm.weight", &[256]), TensorType::F32);
    assert_eq!(a.pick("blk.0.ffn_up.weight", &[256, 4]), TensorType::Q4K);
    assert_eq!(a.pick("blk.0.ffn_up.weight", &[64, 4]), TensorType::Q8_0);
    assert_eq!(a.pick("blk.0.ffn_up.weight", &[65, 4]), TensorType::F16);
    assert_eq!(fit(TensorType::Q8_0, 31), TensorType::F16);
    assert_eq!(fit(TensorType::F32, 31), TensorType::F32);
}

#[test]
fn codebook_blocks_need_weights() {
    let d = [256u64, 8, 3];
    assert_eq!(settle(TensorType::IQ2XXS, &d, None), TensorType::Q2K);
    assert_eq!(settle(TensorType::IQ2XXS, &d, Some(256)), TensorType::IQ2XXS);
    assert_eq!(settle(TensorType::IQ2XXS, &d, Some(768)), TensorType::IQ2XXS);
    assert_eq!(settle(TensorType::IQ2XXS, &d, Some(512)), TensorType::Q2K);
    assert_eq!(settle(TensorType::Q4K, &d, None), TensorType::Q4K);
    assert_eq!(
        check_source("t", TensorType::Q8_0),
        Err("t: source type Q8_0 is not a float type".to_string())
    );
}

#[test]
fn rows_of_float_types() {
    let mut x = vec![1u32];
    row_to_f32(TensorType::F32, &1.5f32.to_le_bytes(), &mut x).unwrap();
    assert_eq!(x, vec![1.5f32.to_bits()]);
    row_to_f32(TensorType::BF16, &[0x80, 0x3f, 0x00, 0xc0], &mut x).unwrap();
    assert_eq!(x, vec![1.0f32.to_bits(), (-2.0f32).to_bits()]);
    row_to_f32(TensorType::F16, &[0x00, 0x3c, 0x01, 0x00], &mut x).unwrap();
    assert_eq!(x, vec![1.0f32.to_bits(), (2.0f32).powi(-24).to_bits()]);
    assert_eq!(
        row_to_f32(TensorType::Q8_0, &[], &mut x),
        Err("unsupported source type Q8_0".to_string())
    );
    for (ty, width) in [(TensorType::F32, 4), (TensorType::F16, 2)] {
        let (a, b) = ([1.5f32.to_bits(), 2.0f32.to_bits()], [0.25f32.to_bits()]);
        let (mut joined, mut parts) = (Vec::new(), Vec::new());
        assert_eq!(quantize_row(ty, &[a[0], a[1], b[0]], false, &mut joined), Ok(None));
        assert_eq!(quantize_row(ty, &a, false, &mut parts), Ok(None));
        assert_eq!(parts.len() as u64, ty.row_bytes(2).unwrap());
        assert_eq!(parts.len(), 2 * width);
        assert_eq!(quantize_row(ty, &b, false, &mut parts), Ok(None));
        assert_eq!(joined, parts);
    }
    let mut out = vec![7u8];
    assert_eq!(quantize_row(TensorType::F32, &[1.5f32.to_bits()], false, &mut out), Ok(None));
    assert_eq!(out, [&[7u8][..], &1.5f32.to_le_bytes()].concat());
    assert_eq!(quantize_row(TensorType::F16, &[1.0f32.to_bits()], false, &mut out), Ok(None));
    assert_eq!(&out[5..], &[0x00, 0x3c]);
    assert_eq!(quantize_row(TensorType::Q6K, &[], false, &mut out), Ok(Some(Encoder::Q6K)));
    assert_eq!(quantize_row(TensorType::IQ2XXS, &[], true, &mut out), Ok(Some(Encoder::IQ2XXS)));
    assert_eq!(
        quantize_row(TensorType::IQ2XXS, &[], false, &mut out),
        Err("iq2_xxs requires an imatrix (--imatrix)".to_string())
    );
    assert_eq!(quantize_row(TensorType::BF16, &[], false, &mut out), Err("no encoder for BF16".to_string()));
    assert_eq!(out.len(), 7);
}

#[test]
fn headers_end_where_the_data_begins() {
    let meta = vec![
        ("a.list".to_string(), Value::Array(vec![Value::U8(1), Value::U8(2)])),
        ("b.text".to_string(), Value::String("h\u{e9}".to_string())),
        ("c.real".to_string(), Value::F32(1.5f32.to_bits())),
        ("d.flag".to_string(), Value::Bool(true)),
        ("e.neg".to_string(), Value::I64(-3)),
    ];
    let tensors = vec![TensorInfo {
        name: "w".to_string(),
        dims: vec![32, 2],
        ty: TensorType::Q8_0,
        offset: 64,
    }];
    let h = write_header(&meta, &tensors, 512).unwrap();
    assert_eq!(h.len(), 512);
    let g = Gguf::parse(&h).unwrap();
    assert_eq!(g.data_offset, 512);
    assert_eq!(g.version, 3);
    assert_eq!(g.metadata.get("b.text").and_then(Value::as_str), Some("h\u{e9}"));
    assert_eq!(g.metadata.get("c.real").and_then(Value::as_f32), Some(1.5f32.to_bits()));
    assert_eq!(g.metadata.get("a.list").and_then(Value::as_array).map(|v| v.len()), Some(2));
    assert!(matches!(g.metadata.get("d.flag"), Some(Value::Bool(true))));
    assert!(matches!(g.metadata.get("e.neg"), Some(Value::I64(-3))));
    assert!(g.metadata.get("pulsar.pad").and_then(Value::as_str).unwrap().chars().all(|c| c == ' '));
    let t = g.tensor("w").unwrap();
    assert_eq!((t.dims.clone(), t.ty, t.offset), (vec![32, 2], TensorType::Q8_0, 64));

    let tight = write_header(&meta, &tensors, 10).err().unwrap();
    assert!(tight.starts_with("header ("), "{tight}");
    assert!(tight.ends_with("B) exceeds reserve (10B); rerun with --header-reserve 8"), "{tight}");
    let mixed = vec![("m".to_string(), Value::Array(vec![Value::U8(1), Value::Bool(true)]))];
    assert_eq!(write_header(&mixed, &tensors, 512), Err("heterogeneous metadata array".to_string()));
}

#[test]
fn values_are_written_by_type() {
    let all = vec![
        (Value::U8(9), 0u32, vec![9u8]),
        (Value::I8(-1), 1, vec![255]),
        (Value::U16(258), 2, vec![2, 1]),
        (Value::I16(-2), 3, vec![254, 255]),
        (Value::U32(1), 4, vec![1, 0, 0, 0]),
        (Value::I32(-1), 5, vec![255; 4]),
        (Value::F32(0x3f80_0000), 6, vec![0, 0, 0x80, 0x3f]),
        (Value::Bool(false), 7, vec![0]),
        (Value::String("ab".to_string()), 8, vec![2, 0, 0, 0, 0, 0, 0, 0, 97, 98]),
        (Value::Array(vec![]), 9, vec![4, 0, 0, 0, 0, 0, 0, 0, 0, 0, 0, 0]),
        (Value::U64(1), 10, vec![1, 0, 0, 0, 0, 0, 0, 0]),
        (Value::I64(-1), 11, vec![255; 8]),
        (Value::F64(1.0f64.to_bits()), 12, 1.0f64.to_le_bytes().to_vec()),
    ];
    for (v, id, bytes) in &all {
        assert_eq!(value_type_id(v), *id);
        let mut out = Vec::new();
        write_value_payload(&mut out, v).unwrap();
        assert_eq!(&out, bytes);
    }
    let mut out = Vec::new();
    write_string(&mut out, "\u{e9}");
    assert_eq!(out, vec![2, 0, 0, 0, 0, 0, 0, 0, 0xc3, 0xa9]);
}

#[test]
fn carried_entries_are_sorted_and_lose_the_split_keys() {
    let mut m = Metadata::new();
    for k in ["zeta", "split.no", "alpha", "splitter", "split.count"] {
        m.insert(k.to_string(), Value::U32(k.len() as u32));
    }
    let keys: Vec<String> = carry(&m).into_iter().map(|e| e.0).collect();
    assert_eq!(keys, strings(&["alpha", "splitter", "zeta"]));
}

#[test]
fn tensor_totals() {
    let mut m = Metadata::new();
    assert_eq!(tensor_total(&m, 5), 5);
    m.insert("split.tensors.count".to_string(), Value::I32(70));
    assert_eq!(tensor_total(&m, 5), 70);
    m.insert("split.tensors.count".to_string(), Value::String("x".to_string()));
    assert_eq!(tensor_total(&m, 5), 5);
    m.insert("split.tensors.count".to_string(), Value::I64(-1));
    assert_eq!(tensor_total(&m, 5), u64::MAX);
}

#[test]
fn layout_of_the_output() {
    assert_eq!((output_alignment(8), output_alignment(64)), (32, 64));
    assert_eq!(data_start(None, 1000, 2, 32), (1000u64 + 320 + (1 << 20)).next_multiple_of(32));
    assert_eq!(data_start(Some(3), 1000, 2, 32), 3 << 20);
    assert_eq!((rows_of(&[]), rows_of(&[7]), rows_of(&[7, 3, 2])), ((1, 1), (7, 1), (7, 6)));
    assert_eq!(rows_of(&[7, 0]), (7, 1));
    assert_eq!(chunks(10, 4), vec![(0, 3), (3, 6), (6, 9), (9, 10)]);
    assert_eq!(chunks(2, 8), vec![(0, 1), (1, 2)]);
    assert_eq!(chunks(5, 4), vec![(0, 2), (2, 4), (4, 5)]);
    let w: Vec<u32> = (0..12).collect();
    assert_eq!(row_weights(&w, 12, 5, 100), &w[..]);
    assert_eq!(row_weights(&w, 4, 5, 4), &w[0..4]);
    assert_eq!(row_weights(&w, 4, 5, 5), &w[4..8]);
    assert_eq!(row_weights(&w, 4, 0, 2), &w[8..12]);
    let mut t = OutTable::new(32);
    assert_eq!(t.push("a".to_string(), vec![1], TensorType::F32, 4), 28);
    assert_eq!(t.push("b".to_string(), vec![1], TensorType::F32, 64), 0);
    assert_eq!(t.tensors.iter().map(|x| x.offset).collect::<Vec<_>>(), vec![0, 32]);
    assert_eq!((t.next, t.sizes.clone()), (96, vec![4, 64]));
    assert_eq!(self_check(3, 4), Err("self-check: output has 3 tensors, expected 4".to_string()));
    assert_eq!(next_head(true, FIRST_HEAD, FIRST_HEAD), Some(64 << 20));
    assert_eq!(next_head(true, 10, FIRST_HEAD), None);
    assert_eq!(next_head(false, FIRST_HEAD, FIRST_HEAD), None);
}

#[test]
fn importance_matrices() {
    let mut b = Vec::new();
    b.extend_from_slice(&2i32.to_le_bytes());
    for (name, vals) in [("x.weight", vec![1.0f32, 2.0]), ("y", vec![])] {
        b.extend_from_slice(&(name.len() as i32).to_le_bytes());
        b.extend_from_slice(name.as_bytes());
        b.extend_from_slice(&4i32.to_le_bytes());
        b.extend_from_slice(&(vals.len() as i32).to_le_bytes());
        for v in vals {
            b.extend_from_slice(&v.to_le_bytes());
        }
    }
    let m = parse_imatrix(&b).ok().unwrap();
    assert_eq!(m.get("x.weight"), Some(&vec![1.0f32.to_bits(), 2.0f32.to_bits()]));
    assert_eq!(m.get("y"), Some(&vec![]));
    assert_eq!(m.get("z"), None);
    let short = parse_imatrix(&b[..b.len() - 1]).err().unwrap();
    assert!(matches!(short, Fault::Truncated));
    assert_eq!(short.message(), "imatrix truncated");
    let count = parse_imatrix(&(-7i32).to_le_bytes()).err().unwrap();
    assert_eq!(
        count.message(),
        "implausible imatrix entry count -7 (gguf-format imatrix? use the legacy .dat)"
    );
    let mut bad = 1i32.to_le_bytes().to_vec();
    bad.extend_from_slice(&1i32.to_le_bytes());
    bad.push(0xff);
    bad.extend_from_slice(&[0u8; 8]);
    assert_eq!(parse_imatrix(&bad).err().unwrap().message(), "imatrix name not utf-8");
}

#[test]
fn shards_are_fetched_where_they_are_missing() {
    assert!(matches!(ensure_shard("s", true, None), Ok(ShardStep::Ready)));
    match ensure_shard("a/b", false, Some("get {} > {}.log")) {
        Ok(ShardStep::Run(c)) => assert_eq!(c, "get a/b > a/b.log"),
        _ => panic!("a command to run"),
    }
    assert_eq!(ensure_shard("s", false, None).err().unwrap(), "s missing and no --fetch-cmd given");
    assert_eq!(shard_fetched("s", None, true), Ok(()));
    assert_eq!(
        shard_fetched("s", Some("exit status: 1"), true),
        Err("fetch command failed (exit status: 1) for s".to_string())
    );
    assert_eq!(
        shard_fetched("s", None, false),
        Err("fetch command succeeded but s still missing".to_string())
    );
}

#[test]
fn faulty_headers_are_named() {
    let say = |b: &[u8]| Gguf::parse(b).err().unwrap().message();
    assert_eq!(Error::BadMagic(0x1234).message(), "not a GGUF file (magic 0x00001234)");
    assert_eq!(Error::TooMany { what: "tensor", count: 9 }.message(), "implausible tensor count 9");
    assert_eq!(
        Error::BadTensorType { tensor: "t".to_string(), ty: 5 }.message(),
        "tensor t: unknown ggml type 5"
    );
    let mut h = 0x4655_4747u32.to_le_bytes().to_vec();
    h.extend_from_slice(&9u32.to_le_bytes());
    assert_eq!(say(&h), "unsupported GGUF version 9");
    let mut h = 0x4655_4747u32.to_le_bytes().to_vec();
    h.extend_from_slice(&3u32.to_le_bytes());
    h.extend_from_slice(&0u64.to_le_bytes());
    h.extend_from_slice(&1u64.to_le_bytes());
    let mut k = h.clone();
    put_str(&mut k, "key");
    k.extend_from_slice(&77u32.to_le_bytes());
    assert_eq!(say(&k), "unknown metadata value type 77");
    let mut u = h.clone();
    u.extend_from_slice(&1u64.to_le_bytes());
    u.push(0xff);
    u.extend_from_slice(&[0u8; 8]);
    assert!(say(&u).starts_with("invalid utf-8 in string at byte "));
}

/// A small model of the K3 family: one layer, 896 experts in three-dimensional slabs.
fn k3_tiny_input() -> Vec<u8> {
    let (hidden, expert_ffn, n_experts, n_heads, head_dim) = (128u64, 64u64, 896u64, 4u64, 32u64);
    let mut h = Vec::new();
    h.extend_from_slice(&0x4655_4747u32.to_le_bytes());
    h.extend_from_slice(&3u32.to_le_bytes());
    h.extend_from_slice(&8u64.to_le_bytes()); // tensors
    h.extend_from_slice(&7u64.to_le_bytes()); // kvs
    put_str(&mut h, "general.architecture");
    h.extend_from_slice(&8u32.to_le_bytes());
    put_str(&mut h, "kimi-k3");
    for (key, n) in [
        ("kimi-k3.block_count", 1u64),
        ("kimi-k3.expert_count", n_experts),
        ("kimi-k3.expert_used_count", 16),
        ("kimi-k3.shared_expert_count", 2),
    ] {
        put_str(&mut h, key);
        h.extend_from_slice(&10u32.to_le_bytes());
        h.extend_from_slice(&n.to_le_bytes());
    }
    put_str(&mut h, "kimi-k3.attention_layer");
    h.extend_from_slice(&9u32.to_le_bytes());
    h.extend_from_slice(&8u32.to_le_bytes());
    h.extend_from_slice(&1u64.to_le_bytes());
    put_str(&mut h, "kda");
    put_str(&mut h, "kimi-k3.embedding_length");
    h.extend_from_slice(&10u32.to_le_bytes());
    h.extend_from_slice(&hidden.to_le_bytes());

    let tensors: Vec<(&str, Vec<u64>, u32)> = vec![
        ("blk.0.attn_q.weight", vec![head_dim * n_heads, hidden], 30),
        ("blk.0.ffn_gate_exps.weight", vec![expert_ffn, hidden, n_experts], 30),
        ("blk.0.ffn_up_exps.weight", vec![expert_ffn, hidden, n_experts], 30),
        ("blk.0.ffn_down_exps.weight", vec![hidden, expert_ffn, n_experts], 30),
        ("blk.0.ffn_router.weight", vec![n_experts, hidden], 30),
        ("blk.0.ffn_shared_gate.weight", vec![expert_ffn, hidden], 30),
        ("blk.0.ffn_shared_up.weight", vec![expert_ffn, hidden], 30),
        ("blk.0.attn_norm.weight", vec![hidden], 0),
    ];
    let mut data: Vec<u8> = Vec::new();
    for (name, dims, ty) in &tensors {
        put_str(&mut h, name);
        h.extend_from_slice(&(dims.len() as u32).to_le_bytes());
        for d in dims {
            h.extend_from_slice(&d.to_le_bytes());
        }
        h.extend_from_slice(&ty.to_le_bytes());
        h.extend_from_slice(&(data.len() as u64).to_le_bytes());
        let n: u64 = dims.iter().product();
        for i in 0..n {
            if *ty == 30 {
                let x = ((i as f32) * 0.37).sin() * 0.8;
                data.extend_from_slice(&((x.to_bits() >> 16) as u16).to_le_bytes());
            } else {
                data.extend_from_slice(&(i as f32 * 0.001).to_le_bytes());
            }
        }
        while data.len() % 32 != 0 {
            data.push(0);
        }
    }
    while h.len() % 32 != 0 {
        h.push(0);
    }
    h.extend_from_slice(&data);
    h
}

#[test]
fn quantize_k3_tiny_model() {
    let args = parsed(&[
        "-i",
        "tiny-k3-BF16.gguf",
        "-o",
        "tiny-k3-recipe.gguf",
        "--map",
        "_exps.=q2_k,_shared_=q3_k",
        "--default",
        "q8_0",
    ])
    .ok()
    .unwrap();
    let head = rewrite(&k3_tiny_input(), &args);
    let g = Gguf::parse(&head).unwrap();

    assert_eq!(g.architecture(), Some("kimi-k3"));
    assert!(g.is_kimi_k3());
    assert_eq!(g.k3_expert_count(), Some(896));
    assert_eq!(g.k3_shared_expert_count(), Some(2));

    // the widths are no multiples of 256, so that every recipe falls back
    let gate = g.tensor("blk.0.ffn_gate_exps.weight").expect("gate");
    assert_eq!(gate.ty, TensorType::Q8_0);
    assert!(gate.is_3d_slab());
    assert_eq!(gate.slab_expert_count(), Some(896));
    assert!(gate.slab_expert_byte_size().is_some());
    let up = g.tensor("blk.0.ffn_up_exps.weight").expect("up");
    assert_eq!(up.ty, TensorType::Q8_0);
    assert!(up.is_3d_slab());
    let down = g.tensor("blk.0.ffn_down_exps.weight").expect("down");
    assert_eq!(down.ty, TensorType::Q8_0);
    assert!(down.is_3d_slab());
    let shared_gate = g.tensor("blk.0.ffn_shared_gate.weight").expect("shared gate");
    assert_eq!(shared_gate.ty, TensorType::Q8_0);
    let shared_up = g.tensor("blk.0.ffn_shared_up.weight").expect("shared up");
    assert_eq!(shared_up.ty, TensorType::Q8_0);
    let attn_q = g.tensor("blk.0.attn_q.weight").expect("attn_q");
    assert_eq!(attn_q.ty, TensorType::Q8_0);
    let norm = g.tensor("blk.0.attn_norm.weight").expect("norm");
    assert_eq!(norm.ty, TensorType::F32);
    let router = g.tensor("blk.0.ffn_router.weight").expect("router");
    assert_eq!(router.ty, TensorType::Q8_0);

    for t in &g.tensors {
        assert!(t.byte_size().is_some(), "tensor {} has unmodeled type {:?}", t.name, t.ty);
    }
    assert!(g.data_offset % g.alignment == 0);
    assert_eq!(gate.dims.len(), 3);
    assert_eq!(gate.dims[2], 896);
}
