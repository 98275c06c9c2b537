//! Values, storage types, shard names and the text helpers around them.

use pulsar::bytes::{push_le, read_le};
use pulsar::gguf::{split_shard_names, split_shards, Metadata, TensorInfo, TensorType, Value};
use pulsar::text::{from_chars, parse_u64, push_decimal, push_digits, push_hex, same_str, to_chars};
use pulsar::words::{contains, replace, split, split_once, starts_with, to_lower, trim};

#[test]
fn values_convert() {
    assert_eq!(Value::I8(-1).as_u64(), None);
    assert_eq!(Value::I64(7).as_u64(), Some(7));
    assert_eq!(Value::U8(200).as_u64(), Some(200));
    assert_eq!(Value::Bool(true).as_u64(), None);
    assert_eq!(Value::F64(0.1f64.to_bits()).as_f32(), Some(0.1f32.to_bits()));
    assert_eq!(Value::U32(1).as_f32(), None);
    assert_eq!(Value::String("x".to_string()).as_str(), Some("x"));
    assert!(Value::String("x".to_string()).as_array().is_none());
    let mut m = Metadata::new();
    m.insert("k".to_string(), Value::U8(1));
    m.insert("k".to_string(), Value::U8(2));
    assert_eq!(m.get("k").and_then(Value::as_u64), Some(2));
    assert_eq!(m.entries().len(), 1);
    assert!(m.contains_key("k") && !m.contains_key("l"));
}

#[test]
fn storage_types() {
    for id in 0..100u32 {
        assert_eq!(TensorType::from_id(id).to_id(), id);
    }
    assert_eq!(TensorType::from_id(77), TensorType::Other(77));
    assert_eq!(TensorType::from_id(10), TensorType::Q2K);
    assert_eq!(TensorType::Q2K.block_layout(), Some((256, 84)));
    assert_eq!(TensorType::Other(77).block_layout(), None);
    assert_eq!(TensorType::Q8_0.row_bytes(33), Some(68));
    assert_eq!(TensorType::F32.row_bytes(3), Some(12));
    assert_eq!(TensorType::Other(5).name(), "Other(5)");
    assert_eq!(TensorType::IQ2XXS.name(), "IQ2XXS");
    let t = TensorInfo { name: "e".to_string(), dims: vec![256, 4, 3], ty: TensorType::Q2K, offset: 0 };
    assert_eq!((t.n_elements(), t.byte_size()), (3072, Some(12 * 84)));
    assert!(t.is_3d_slab());
    assert_eq!((t.slab_expert_count(), t.slab_expert_byte_size()), (Some(3), Some(4 * 84)));
    let flat = TensorInfo { dims: vec![256, 4], name: "f".to_string(), ..t };
    assert_eq!((flat.slab_expert_count(), flat.slab_expert_byte_size()), (None, None));
}

#[test]
fn shard_names() {
    let names = split_shard_names("m-00001-of-00003.gguf").unwrap();
    assert_eq!(names, vec!["m-00001-of-00003.gguf", "m-00002-of-00003.gguf", "m-00003-of-00003.gguf"]);
    for n in [
        "m.gguf",
        "m-00002-of-00003.gguf",
        "m-00001-of-00001.gguf",
        "m-00001-of-0003.gguf",
        "m-1-of-00003.gguf",
        "m-00001-of-00003.bin",
        "m-00001-of-0000x.gguf",
        "00001-of-00003.gguf",
    ] {
        assert_eq!(split_shard_names(n), None, "{n}");
    }
    assert_eq!(split_shard_names("m-00001-of-+0003.gguf"), None);
    assert_eq!(split_shards("m-00001-of-00002.gguf", |_: &String| true).map(|v| v.len()), Some(2));
    assert_eq!(split_shards("m-00001-of-00002.gguf", |n: &String| n.starts_with("m-00001")), None);
}

#[test]
fn bytes_and_numerals() {
    let mut out = vec![9u8];
    push_le(&mut out, 0x0102_0304, 4);
    assert_eq!(out, vec![9, 4, 3, 2, 1]);
    assert_eq!(read_le(&out[1..]), 0x0102_0304);
    let p = |s: &str| parse_u64(&to_chars(s));
    for s in ["0", "+7", "18446744073709551615", "18446744073709551616", "", "+", "-1", " 1", "0x1", "007"] {
        assert_eq!(p(s), s.parse::<u64>().ok(), "{s}");
    }
    let mut s = String::new();
    push_decimal(&mut s, 1205);
    push_digits(&mut s, 7, 5);
    push_hex(&mut s, 0xbeef, 8);
    assert_eq!(s, "1205000070000beef");
    assert_eq!(from_chars(&['a', '\u{e9}']), "a\u{e9}");
    assert!(same_str("ab", "ab") && !same_str("ab", "abc"));
}

#[test]
fn words() {
    assert!(contains("blk.0.ffn", ".0.") && !contains("ab", "abc") && contains("x", ""));
    assert!(starts_with("split.no", "split.") && !starts_with("spl", "split."));
    assert_eq!(to_lower("aBC\u{c9}"), "abc\u{c9}");
    assert_eq!(split("a,,b", ','), vec!["a", "", "b"]);
    assert_eq!(split("", ','), vec![""]);
    assert_eq!(split_once("a=b=c", '='), Some(("a".to_string(), "b=c".to_string())));
    assert_eq!(split_once("abc", '='), None);
    assert_eq!(from_chars(&trim("\t a b \u{2003}\n")), "a b");
    assert_eq!(replace("{}x{}{", "{}", "ab"), "abxab{");
    assert_eq!(replace("aaa", "aa", "b"), "ba");
}
