//! GGUF headers, expert slices and the shape of a model.

use sift::model::experts::stacked_layer;
use sift::model::gguf::{self, Metadata, MAGIC};
use sift::model::{
    expert_ranges, expert_slice, infer_kv_shape, infer_moe_shape, ArchFacts, ExpertError, GgmlType,
    Gguf, GgufError, ModelShape, MoeShape, TensorEntry, TokenTraffic, Value, KV_F16_BYTES,
};
use sift::ratio::Ratio;

fn put_str(b: &mut Vec<u8>, s: &str) {
    b.extend_from_slice(&(s.len() as u64).to_le_bytes());
    b.extend_from_slice(s.as_bytes());
}

fn put_tensor(b: &mut Vec<u8>, name: &str, dims: &[u64], dtype: u32, offset: u64) {
    put_str(b, name);
    b.extend_from_slice(&(dims.len() as u32).to_le_bytes());
    for d in dims {
        b.extend_from_slice(&d.to_le_bytes());
    }
    b.extend_from_slice(&dtype.to_le_bytes());
    b.extend_from_slice(&offset.to_le_bytes());
}

fn put_header(version: u32, tensors: u64, kv: u64) -> Vec<u8> {
    let mut b = Vec::new();
    b.extend_from_slice(&MAGIC.to_le_bytes());
    b.extend_from_slice(&version.to_le_bytes());
    b.extend_from_slice(&tensors.to_le_bytes());
    b.extend_from_slice(&kv.to_le_bytes());
    b
}

/// A minimal but structurally valid GGUF.
fn synth() -> Vec<u8> {
    let mut b = put_header(3, 1, 2);
    put_str(&mut b, "general.architecture");
    b.extend_from_slice(&8u32.to_le_bytes());
    put_str(&mut b, "qwen3moe");
    put_str(&mut b, "qwen3moe.expert_count");
    b.extend_from_slice(&4u32.to_le_bytes());
    b.extend_from_slice(&128u32.to_le_bytes());
    put_tensor(&mut b, "blk.0.ffn_gate_exps.weight", &[2048, 768, 128], 12, 0);
    b
}

#[test]
fn parses_header_metadata_and_directory() {
    let g = Gguf::parse(&synth()).expect("parse");
    assert_eq!(g.version, 3);
    assert_eq!(g.architecture(), Some("qwen3moe"));
    assert_eq!(g.arch_u64("expert_count"), Some(128));
    assert_eq!(g.tensors.len(), 1);

    let t = g.tensor("blk.0.ffn_gate_exps.weight").expect("tensor present");
    assert_eq!(t.dims, vec![2048, 768, 128]);
    assert_eq!(t.dtype.name(), "Q4_K");
    assert_eq!(t.n_elems(), 2048 * 768 * 128);
    // 128 experts x 884,736 bytes each.
    assert_eq!(t.size_bytes(), Some(884_736 * 128));
}

#[test]
fn data_offset_respects_alignment() {
    let g = Gguf::parse(&synth()).expect("parse");
    assert_eq!(g.data_offset % 32, 0, "default alignment is 32");
    assert!(g.data_offset > 0);
}

#[test]
fn rejects_a_non_gguf_file() {
    match Gguf::parse(b"this is not a model file at all") {
        Err(GgufError::BadMagic(_)) => {}
        other => panic!("expected BadMagic, got {other:?}"),
    }
}

#[test]
fn refuses_an_implausible_tensor_count_instead_of_allocating() {
    let b = put_header(3, 1 << 40, 0);
    match Gguf::parse(&b) {
        Err(GgufError::Implausible { what: "tensor count", .. }) => {}
        other => panic!("expected Implausible, got {other:?}"),
    }
}

#[test]
fn rejects_an_unsupported_version() {
    let b = put_header(99, 0, 0);
    match Gguf::parse(&b) {
        Err(GgufError::BadVersion(99)) => {}
        other => panic!("expected BadVersion, got {other:?}"),
    }
}

#[test]
fn q4_k_is_four_and_a_half_bits() {
    let l = GgmlType(12).block_layout().expect("Q4_K is known");
    assert_eq!(l.elems, 256);
    assert_eq!(l.bytes, 144);
    assert!((value(l.bits_per_weight()) - 4.5).abs() < 1e-9);
}

fn value(r: Ratio) -> f64 {
    r.numer as f64 / r.denom as f64
}

#[test]
fn mxfp4_is_four_and_a_quarter_bits() {
    let l = GgmlType(39).block_layout().expect("MXFP4 is known");
    assert!((value(l.bits_per_weight()) - 4.25).abs() < 1e-9);
}

#[test]
fn f32_is_thirty_two_bits() {
    let l = GgmlType(0).block_layout().expect("F32 is known");
    assert!((value(l.bits_per_weight()) - 32.0).abs() < 1e-9);
}

#[test]
fn byte_size_matches_a_hand_computed_expert() {
    let elems = 2048u64 * 768;
    let bytes = GgmlType(12).bytes_for(elems).expect("whole blocks");
    assert_eq!(elems % 256, 0, "must divide into whole Q4_K blocks");
    assert_eq!(bytes, elems / 256 * 144);
    assert_eq!(bytes, 884_736);
}

#[test]
fn a_partial_block_is_refused_rather_than_rounded() {
    assert_eq!(GgmlType(12).bytes_for(100), None);
}

#[test]
fn unknown_types_report_none_instead_of_guessing() {
    assert_eq!(GgmlType(9999).block_layout(), None);
    assert_eq!(GgmlType(9999).bytes_for(256), None);
    assert_eq!(GgmlType(9999).name(), "unknown");
}

/// A GGUF with the three stacked expert tensors of one layer.
fn synth_moe_layer() -> Vec<u8> {
    let mut b = put_header(3, 3, 0);
    let per_expert = 2048u64 * 768 / 256 * 144;
    let stacked = per_expert * 128;
    put_tensor(&mut b, "blk.0.ffn_gate_exps.weight", &[2048, 768, 128], 12, 0);
    put_tensor(&mut b, "blk.0.ffn_up_exps.weight", &[2048, 768, 128], 12, stacked);
    put_tensor(&mut b, "blk.0.ffn_down_exps.weight", &[768, 2048, 128], 12, stacked * 2);
    b
}

fn model() -> Gguf {
    Gguf::parse(&synth_moe_layer()).expect("parse")
}

#[test]
fn expert_zero_starts_at_the_tensor_origin() {
    let g = model();
    let t = g.tensor("blk.0.ffn_gate_exps.weight").expect("present");
    let s = expert_slice(&g, "blk.0.ffn_gate_exps.weight", 0).expect("slice");
    assert_eq!(s.offset, g.absolute_offset(t));
    assert_eq!(s.len, 884_736);
}

#[test]
fn consecutive_experts_are_adjacent_and_equal_sized() {
    let g = model();
    let a = expert_slice(&g, "blk.0.ffn_gate_exps.weight", 5).expect("slice 5");
    let b = expert_slice(&g, "blk.0.ffn_gate_exps.weight", 6).expect("slice 6");
    assert_eq!(a.end(), b.offset, "experts must tile the stacked tensor without gaps");
    assert_eq!(a.len, b.len);
}

#[test]
fn the_last_expert_ends_exactly_at_the_tensor_end() {
    let g = model();
    let t = g.tensor("blk.0.ffn_gate_exps.weight").expect("present");
    let last = expert_slice(&g, "blk.0.ffn_gate_exps.weight", 127).expect("slice 127");
    let tensor_end = g.absolute_offset(t) + t.size_bytes().expect("size");
    assert_eq!(last.end(), tensor_end, "slices must exactly cover the tensor");
}

#[test]
fn an_out_of_range_expert_is_refused() {
    let g = model();
    match expert_slice(&g, "blk.0.ffn_gate_exps.weight", 128) {
        Err(ExpertError::OutOfRange { index: 128, count: 128, .. }) => {}
        other => panic!("expected OutOfRange, got {other:?}"),
    }
}

#[test]
fn stock_gguf_experts_are_not_contiguous_across_projections() {
    let g = model();
    let r = expert_ranges(&g, 0, 3).expect("ranges");
    assert!(
        !r.is_contiguous(),
        "stock GGUF splits gate/up/down across three distant tensors"
    );
    assert_eq!(r.total_bytes(), 884_736 * 3);
}

#[test]
fn down_projection_has_the_same_size_despite_transposed_dims() {
    let g = model();
    let r = expert_ranges(&g, 0, 0).expect("ranges");
    assert_eq!(r.gate.len, r.down.len, "768x2048 and 2048x768 hold equal weights");
}

#[test]
fn a_missing_layer_names_the_tensor_it_looked_for() {
    let g = model();
    match expert_ranges(&g, 47, 0) {
        Err(ExpertError::MissingTensor(name)) => {
            assert_eq!(name, "blk.47.ffn_gate_exps.weight");
        }
        other => panic!("expected MissingTensor, got {other:?}"),
    }
}

#[test]
fn token_traffic_matches_the_hand_computed_qwen3_figure() {
    let expert_bytes = 8 * 48 * 3 * 884_736u64;
    let t = TokenTraffic { expert_bytes, trunk_bytes: 0 };
    let gb = t.total() as f64 / 1e9;
    assert!((gb - 1.019).abs() < 0.01, "expected ~1.02 GB/token, got {gb:.3}");
}

fn speed(t: &TokenTraffic, bytes_per_sec: u64, hit_rate: i64) -> f64 {
    value(t.tokens_per_sec(bytes_per_sec, hit_rate).expect("a token reads something"))
}

#[test]
fn hit_rate_scales_only_expert_traffic() {
    let t = TokenTraffic { expert_bytes: 1_000_000_000, trunk_bytes: 500_000_000 };

    // Cold: reads everything.
    let cold = speed(&t, 6_150_000_000, 0);
    assert!((cold - 6.15e9 / 1.5e9).abs() < 1e-6);

    // Perfect expert cache still pays the trunk every token.
    let hot = speed(&t, 6_150_000_000, 1_000_000);
    assert!((hot - 6.15e9 / 0.5e9).abs() < 1e-6);

    assert!(hot > cold);
}

#[test]
fn hit_rate_is_clamped_rather_than_producing_nonsense() {
    let t = TokenTraffic { expert_bytes: 1_000, trunk_bytes: 1_000 };
    assert_eq!(
        t.tokens_per_sec(1_000_000_000, 2_000_000),
        t.tokens_per_sec(1_000_000_000, 1_000_000)
    );
    assert_eq!(
        t.tokens_per_sec(1_000_000_000, -5_000_000),
        t.tokens_per_sec(1_000_000_000, 0)
    );
}

fn qwen3() -> MoeShape {
    MoeShape {
        moe_layers: 48,
        experts_per_layer: 128,
        experts_per_token: 8,
        bytes_per_expert: 884_736 * 3,
    }
}

#[test]
fn qwen3_30b_a3b_sparsity_and_traffic() {
    let shape = qwen3();
    assert!(
        (value(shape.activation_ratio()) - 0.0625).abs() < 1e-9,
        "8 of 128 is 6.25%"
    );

    let per_token_gb = shape.expert_bytes_per_token() as f64 / 1e9;
    assert!(
        (per_token_gb - 1.019).abs() < 0.01,
        "expected ~1.02 GB/token, got {per_token_gb:.3}"
    );

    let total_gb = shape.total_expert_bytes() as f64 / 1e9;
    assert!(
        (total_gb - 16.3).abs() < 0.5,
        "expected ~16 GB of expert weights, got {total_gb:.1}"
    );
}

#[test]
fn a_token_reads_the_activation_ratio_of_all_expert_bytes() {
    let shape = qwen3();
    let ratio = shape.expert_bytes_per_token() as f64 / shape.total_expert_bytes() as f64;
    assert!((ratio - value(shape.activation_ratio())).abs() < 1e-9);
}

#[test]
fn a_dense_model_has_no_moe_shape() {
    let shape = MoeShape {
        moe_layers: 0,
        experts_per_layer: 0,
        experts_per_token: 0,
        bytes_per_expert: 0,
    };
    assert_eq!(value(shape.activation_ratio()), 0.0, "must not divide by zero");
}

// A model laid out the way a quantizer writes one: down before gate before up, and more bits
// for down than for the other two.

const EXPERTS: u64 = 16;

fn quantized() -> (Gguf, Vec<u8>) {
    let mut b = put_header(3, 3, 2);
    put_str(&mut b, "general.architecture");
    b.extend_from_slice(&8u32.to_le_bytes());
    put_str(&mut b, "olmoe");
    put_str(&mut b, "olmoe.expert_used_count");
    b.extend_from_slice(&4u32.to_le_bytes());
    b.extend_from_slice(&2u32.to_le_bytes());
    // Q6_K has 210 bytes a block of 256, Q4_K has 144.
    let down = 2 * 210 * EXPERTS;
    let gate = 2 * 144 * EXPERTS;
    put_tensor(&mut b, "blk.0.ffn_down_exps.weight", &[256, 2, EXPERTS], 14, 0);
    put_tensor(&mut b, "blk.0.ffn_gate_exps.weight", &[256, 2, EXPERTS], 12, down);
    put_tensor(&mut b, "blk.0.ffn_up_exps.weight", &[256, 2, EXPERTS], 12, down + gate);
    let g = Gguf::parse(&b).expect("parse");
    let payload = down + 2 * gate;
    b.resize((g.data_offset + payload) as usize, 0);
    for i in 0..payload as usize {
        b[g.data_offset as usize + i] = (i / 97 + 1) as u8;
    }
    (g, b)
}

#[test]
fn opening_a_real_model_does_not_read_its_weights() {
    let (whole, file) = quantized();
    let front = &file[..whole.data_offset as usize];
    let g = Gguf::parse(front).expect("the directory is enough");
    assert_eq!(g.tensors.len(), whole.tensors.len());
    assert_eq!(g.data_offset, whole.data_offset);
}

#[test]
fn expert_offsets_land_inside_the_file_and_tile_their_tensor() {
    let (g, file) = quantized();
    let file_bytes = file.len() as u64;
    let shape = infer_moe_shape(&g).expect("a mixture of experts");

    let name = "blk.0.ffn_gate_exps.weight";
    let tensor = g.tensor(name).expect("layer 0 gate experts");
    let tensor_start = g.absolute_offset(tensor);
    let tensor_end = tensor_start + tensor.size_bytes().expect("known size");

    let mut prev_end = tensor_start;
    for e in 0..shape.experts_per_layer {
        let s = expert_slice(&g, name, e).expect("slice");
        assert_eq!(
            s.offset,
            prev_end,
            "expert {e} must start where expert {} ended, leaving no gap",
            e.wrapping_sub(1)
        );
        assert!(
            s.end() <= file_bytes,
            "expert {e} ends at {} past the {file_bytes}-byte file",
            s.end()
        );
        prev_end = s.end();
    }
    assert_eq!(
        prev_end, tensor_end,
        "the experts must exactly cover the stacked tensor, with nothing left over"
    );
}

#[test]
fn different_experts_hold_different_bytes() {
    let (g, file) = quantized();
    let name = "blk.0.ffn_gate_exps.weight";
    let a = expert_slice(&g, name, 0).expect("expert 0");
    let b = expert_slice(&g, name, 1).expect("expert 1");
    let n = 4096.min(a.len as usize);
    let buf_a = &file[a.offset as usize..a.offset as usize + n];
    let buf_b = &file[b.offset as usize..b.offset as usize + n];
    assert_ne!(
        buf_a, buf_b,
        "experts 0 and 1 read identical bytes; the per-expert stride is wrong"
    );
    assert!(
        buf_a.iter().any(|&x| x != 0),
        "expert 0 is entirely zero, which suggests the offset points outside the payload"
    );
}

#[test]
fn stock_layout_costs_three_scattered_reads_per_expert() {
    let (g, _) = quantized();
    let r = expert_ranges(&g, 0, 0).expect("ranges");
    assert!(!r.is_contiguous(), "stock GGUF is expected to scatter gate/up/down");

    // Do not assume gate < up < down in the file.
    let lo = r.gate.offset.min(r.up.offset).min(r.down.offset);
    let hi = r.gate.end().max(r.up.end()).max(r.down.end());
    let spread = hi - lo;
    assert!(
        spread > r.total_bytes() * 4,
        "expected the three projections to be far apart; they span {spread} bytes \
         while holding only {} bytes of payload",
        r.total_bytes()
    );
}

#[test]
fn projections_may_carry_different_dtypes() {
    let (g, _) = quantized();
    let names = [
        "blk.0.ffn_gate_exps.weight",
        "blk.0.ffn_up_exps.weight",
        "blk.0.ffn_down_exps.weight",
    ];
    let dtypes: Vec<&str> =
        names.iter().map(|n| g.tensor(n).expect("projection present").dtype.name()).collect();
    for (name, dtype) in names.iter().zip(&dtypes) {
        assert_ne!(*dtype, "unknown", "{name} has a dtype this build cannot size");
    }
    let r = expert_ranges(&g, 0, 0).expect("ranges");
    assert_eq!(
        r.total_bytes(),
        r.gate.len + r.up.len + r.down.len,
        "per-expert size must sum the three projections individually"
    );
    assert_eq!((r.gate.len, r.up.len, r.down.len), (288, 288, 420));
}

#[test]
fn per_token_traffic_matches_the_activation_ratio() {
    let (g, _) = quantized();
    let shape = infer_moe_shape(&g).expect("a mixture of experts");
    let ratio = shape.expert_bytes_per_token() as f64 / shape.total_expert_bytes() as f64;
    assert!(
        (ratio - value(shape.activation_ratio())).abs() < 1e-9,
        "per-token traffic {ratio} disagrees with activation ratio"
    );
    assert!(
        ratio < 0.5,
        "a model this dense in activation would not benefit from residency planning"
    );
}

// What is proved of all inputs, on a few.

#[test]
fn every_error_has_its_input() {
    assert_eq!(Gguf::parse(b"").unwrap_err(), GgufError::Truncated { needed: 4 });
    assert_eq!(
        Gguf::parse(&put_header(3, 0, 1)).unwrap_err(),
        GgufError::Truncated { needed: 32 }
    );
    assert_eq!(
        Gguf::parse(&put_header(3, 0, 1 << 40)).unwrap_err(),
        GgufError::Implausible { what: "metadata count", n: 1 << 40, limit: gguf::MAX_KV }
    );
    let mut b = put_header(3, 0, 1);
    put_str(&mut b, "k");
    b.extend_from_slice(&77u32.to_le_bytes());
    assert_eq!(Gguf::parse(&b).unwrap_err(), GgufError::BadValueType(77));
    let mut b = put_header(3, 0, 1);
    b.extend_from_slice(&u64::MAX.to_le_bytes());
    assert_eq!(Gguf::parse(&b).unwrap_err(), GgufError::ImplausibleString(u64::MAX));
    assert_eq!(
        GgufError::BadMagic(0x73696874).message(),
        "not a GGUF file: magic was 0x73696874, expected 0x46554747"
    );
    assert_eq!(GgufError::BadVersion(9).message(), "unsupported GGUF version 9");
    assert_eq!(GgufError::BadValueType(77).message(), "unknown metadata value type 77");
    assert_eq!(
        GgufError::Truncated { needed: 4 }.message(),
        "io error: failed to fill whole buffer"
    );
}

#[test]
fn every_value_type_is_read() {
    let mut b = put_header(2, 0, 8);
    put_str(&mut b, "u8");
    b.extend_from_slice(&0u32.to_le_bytes());
    b.push(200);
    put_str(&mut b, "i8");
    b.extend_from_slice(&1u32.to_le_bytes());
    b.push(0xFF);
    put_str(&mut b, "i32");
    b.extend_from_slice(&5u32.to_le_bytes());
    b.extend_from_slice(&(-7i32).to_le_bytes());
    put_str(&mut b, "f32");
    b.extend_from_slice(&6u32.to_le_bytes());
    b.extend_from_slice(&1.5f32.to_le_bytes());
    put_str(&mut b, "bool");
    b.extend_from_slice(&7u32.to_le_bytes());
    b.push(1);
    put_str(&mut b, "i64");
    b.extend_from_slice(&11u32.to_le_bytes());
    b.extend_from_slice(&i64::MIN.to_le_bytes());
    put_str(&mut b, "f64");
    b.extend_from_slice(&12u32.to_le_bytes());
    b.extend_from_slice(&2.5f64.to_le_bytes());
    put_str(&mut b, "list");
    b.extend_from_slice(&9u32.to_le_bytes());
    b.extend_from_slice(&4u32.to_le_bytes());
    b.extend_from_slice(&2u64.to_le_bytes());
    b.extend_from_slice(&10u32.to_le_bytes());
    b.extend_from_slice(&20u32.to_le_bytes());
    let g = Gguf::parse(&b).expect("parse");
    assert_eq!(g.metadata.get("u8"), Some(&Value::U8(200)));
    assert_eq!(g.metadata.get("i8"), Some(&Value::I8(-1)));
    assert_eq!(g.metadata.get("i32"), Some(&Value::I32(-7)));
    assert_eq!(g.metadata.get("f32"), Some(&Value::F32(1.5f32.to_bits())));
    assert_eq!(g.metadata.get("bool"), Some(&Value::Bool(true)));
    assert_eq!(g.metadata.get("i64"), Some(&Value::I64(i64::MIN)));
    assert_eq!(g.metadata.get("f64"), Some(&Value::F64(2.5f64.to_bits())));
    assert_eq!(
        g.metadata.get("list"),
        Some(&Value::Array(vec![Value::U32(10), Value::U32(20)]))
    );
    assert_eq!(g.metadata.get("absent"), None);
}

#[test]
fn a_string_that_is_no_utf8_is_read_with_replacements() {
    let mut b = put_header(3, 0, 1);
    put_str(&mut b, "general.architecture");
    b.extend_from_slice(&8u32.to_le_bytes());
    b.extend_from_slice(&3u64.to_le_bytes());
    b.extend_from_slice(b"a\xFFb");
    let g = Gguf::parse(&b).expect("parse");
    assert_eq!(g.architecture(), Some("a\u{FFFD}b"));
}

#[test]
fn the_later_of_two_entries_counts() {
    let mut m = Metadata::new();
    m.insert("k".to_string(), Value::U8(1));
    m.insert("k".to_string(), Value::U8(2));
    assert_eq!(m.get("k"), Some(&Value::U8(2)));
}

#[test]
fn numbers_are_unsigned_where_they_can_be() {
    assert_eq!(Value::I32(7).as_u64(), Some(7));
    assert_eq!(Value::I32(-7).as_u64(), None);
    assert_eq!(Value::U64(u64::MAX).as_u64(), Some(u64::MAX));
    assert_eq!(Value::String("x".to_string()).as_u64(), None);
    assert_eq!(Value::String("x".to_string()).as_str(), Some("x"));
}

#[test]
fn expert_errors_say_what_is_wrong() {
    let mut b = put_header(3, 2, 0);
    put_tensor(&mut b, "flat", &[256, 2], 12, 0);
    put_tensor(&mut b, "odd", &[256, 2, 2], 9999, 0);
    let g = Gguf::parse(&b).expect("parse");
    match expert_slice(&g, "flat", 0) {
        Err(e @ ExpertError::NotStacked { rank: 2, .. }) => assert!(e.message().contains("flat")),
        other => panic!("expected NotStacked, got {other:?}"),
    }
    match expert_slice(&g, "odd", 0) {
        Err(e @ ExpertError::UnknownDtype { .. }) => assert!(e.message().contains("odd")),
        other => panic!("expected UnknownDtype, got {other:?}"),
    }
    let mut b = put_header(3, 1, 0);
    put_tensor(&mut b, "short", &[100, 1, 2], 12, 0);
    let g = Gguf::parse(&b).expect("parse");
    match expert_slice(&g, "short", 0) {
        Err(ExpertError::NotBlockAligned { block: 256, .. }) => {}
        other => panic!("expected NotBlockAligned, got {other:?}"),
    }
}

#[test]
fn a_moe_shape_is_read_off_the_directory() {
    let (g, _) = quantized();
    assert_eq!(
        infer_moe_shape(&g),
        Some(MoeShape {
            moe_layers: 1,
            experts_per_layer: EXPERTS,
            experts_per_token: 2,
            bytes_per_expert: 996,
        })
    );
    let dense = Gguf::parse(&put_header(3, 0, 0)).expect("parse");
    assert_eq!(infer_moe_shape(&dense), None);
}

#[test]
fn a_split_model_has_the_shape_of_the_same_weights_in_one_file() {
    let (whole, _) = quantized();
    let down = 2 * 210 * EXPERTS;
    let mut first = put_header(3, 1, 2);
    put_str(&mut first, "general.architecture");
    first.extend_from_slice(&8u32.to_le_bytes());
    put_str(&mut first, "olmoe");
    put_str(&mut first, "olmoe.expert_used_count");
    first.extend_from_slice(&4u32.to_le_bytes());
    first.extend_from_slice(&2u32.to_le_bytes());
    put_tensor(&mut first, "blk.0.ffn_down_exps.weight", &[256, 2, EXPERTS], 14, 0);
    let mut second = put_header(3, 2, 0);
    put_tensor(&mut second, "blk.0.ffn_gate_exps.weight", &[256, 2, EXPERTS], 12, down);
    put_tensor(&mut second, "blk.0.ffn_up_exps.weight", &[256, 2, EXPERTS], 12, down + 4608);
    let parts = vec![Gguf::parse(&first).unwrap(), Gguf::parse(&second).unwrap()];
    let one = whole.shape();
    let two = ModelShape::sharded(parts).expect("countable");
    assert_eq!(one.moe, two.moe);
    assert_eq!(one.total_tensor_bytes(), two.total_tensor_bytes());
    assert_eq!(one.bits_per_weight(), two.bits_per_weight());
    assert_eq!((one.shard_count, two.shard_count), (1, 2));
}

#[test]
fn a_cache_is_sized_from_the_architecture() {
    let facts = ArchFacts {
        block_count: Some(16),
        head_count: Some(16),
        head_count_kv: Some(4),
        embedding_length: Some(2048),
        ..ArchFacts::default()
    };
    let entry = TensorEntry {
        name: "w".to_string(),
        n_elems: 8,
        dims: vec![8],
        size_bytes: 16,
    };
    let shape = ModelShape::new(facts, vec![entry], 1);
    let kv = infer_kv_shape(&shape).expect("enough is stated");
    // Keys and values, 16 blocks, 4 heads, 128 wide, two bytes each.
    assert_eq!(kv.bytes_at(1, KV_F16_BYTES), 2 * 16 * 4 * 128 * 2);
    assert_eq!(kv.bytes_at(4096, KV_F16_BYTES), 4096 * 2 * 16 * 4 * 128 * 2);
    let nothing = ModelShape::new(ArchFacts::default(), vec![], 1);
    assert_eq!(infer_kv_shape(&nothing), None);
    assert_eq!(nothing.bits_per_weight(), None);
}

#[test]
fn a_tensor_that_ends_the_file_marks_its_size() {
    let (g, _) = quantized();
    assert!(g.is_sized());
    assert_eq!(g.total_tensor_bytes(), 2 * 210 * EXPERTS + 2 * 2 * 144 * EXPERTS);
    assert_eq!(g.data_region_start(), g.data_offset);
}

#[test]
fn whole_gib_and_mib() {
    assert_eq!(value(sift::gib(3 * sift::GIB)), 3.0);
    assert_eq!(value(sift::mib(3 * sift::MIB)), 3.0);
}

/// A model whose block 0 is dense, with the given blocks of four stacked experts.
fn with_dense_front(blocks: &[u32]) -> Gguf {
    let mut b = put_header(3, 1 + 3 * blocks.len() as u64, 0);
    put_tensor(&mut b, "blk.0.ffn_gate.weight", &[256, 1], 12, 0);
    let mut at = 144;
    for block in blocks {
        for projection in ["gate", "up", "down"] {
            let name = format!("blk.{block}.ffn_{projection}_exps.weight");
            put_tensor(&mut b, &name, &[256, 1, 4], 12, at);
            at += 576;
        }
    }
    Gguf::parse(&b).expect("parse")
}

#[test]
fn dense_blocks_do_not_hide_the_experts_behind_them() {
    let shape = |moe_layers| {
        Some(MoeShape {
            moe_layers,
            experts_per_layer: 4,
            experts_per_token: 8,
            bytes_per_expert: 432,
        })
    };
    assert_eq!(infer_moe_shape(&with_dense_front(&[1])), shape(1));
    assert_eq!(infer_moe_shape(&with_dense_front(&[7, 3, 4])), shape(3));
    assert_eq!(infer_moe_shape(&with_dense_front(&[])), None);
}

#[test]
fn a_tensor_that_is_no_stack_is_not_counted() {
    let mut b = put_header(3, 2, 0);
    put_tensor(&mut b, "blk.0.ffn_gate_exps.weight", &[256, 4], 12, 0);
    put_tensor(&mut b, "blk.2.ffn_up_exps.weight", &[256, 1, 4], 12, 576);
    let g = Gguf::parse(&b).expect("parse");
    assert_eq!(
        infer_moe_shape(&g),
        Some(MoeShape {
            moe_layers: 1,
            experts_per_layer: 4,
            experts_per_token: 8,
            bytes_per_expert: 144,
        })
    );
}

#[test]
fn the_name_of_a_stacked_tensor_gives_its_layer() {
    assert_eq!(stacked_layer("blk.12.ffn_down_exps.weight"), Some(12));
    assert_eq!(stacked_layer("blk.012.ffn_down_exps.weight"), None);
    assert_eq!(stacked_layer("blk.+1.ffn_down_exps.weight"), None);
    assert_eq!(stacked_layer("blk.1.ffn_gate.weight"), None);
    assert_eq!(stacked_layer("blk"), None);
}

#[test]
fn known_types_have_names_of_their_own() {
    let names: Vec<&str> = (0..64)
        .map(GgmlType)
        .filter(|t| t.block_layout().is_some())
        .map(|t| t.name())
        .collect();
    assert_eq!(names.len(), 30);
    for (i, a) in names.iter().enumerate() {
        assert!(!names[..i].contains(a), "{a} twice");
    }
}

#[test]
fn a_partial_block_is_not_made_whole_by_whole_ones() {
    assert_eq!(GgmlType(12).bytes_for(256), Some(144));
    assert_eq!(GgmlType(12).bytes_for(100), None);
    assert_eq!(GgmlType(12).bytes_for(356), None);
}

#[test]
fn a_stack_without_experts_is_counted_but_not_measured() {
    let mut b = put_header(3, 2, 0);
    put_tensor(&mut b, "blk.0.ffn_gate_exps.weight", &[256, 1, 0], 12, 0);
    put_tensor(&mut b, "blk.1.ffn_gate_exps.weight", &[256, 1, 4], 12, 0);
    let g = Gguf::parse(&b).expect("parse");
    assert_eq!(
        infer_moe_shape(&g),
        Some(MoeShape {
            moe_layers: 2,
            experts_per_layer: 4,
            experts_per_token: 8,
            bytes_per_expert: 144,
        })
    );
    let mut b = put_header(3, 1, 0);
    put_tensor(&mut b, "blk.0.ffn_gate_exps.weight", &[256, 1, 0], 12, 0);
    assert_eq!(infer_moe_shape(&Gguf::parse(&b).expect("parse")), None);
}
