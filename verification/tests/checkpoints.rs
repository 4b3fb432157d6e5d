use paddock_metal::error::{Fault, MetalError};
use paddock_metal::header::{
    block_text, contains_part, decimal_text, far_block_text, Entry, Field, Header, Tensor,
};
use paddock_metal::program::{Buffer, Op, Program};
use paddock_metal::qwen35::checkpoint::{
    hf_name, plan_affine, small_shape, splash_weight, widen as widen_small, Dtype, Formats, PackedTensor,
    Plan, Shards, Stored,
};
use paddock_metal::qwen35::processor::{grant, vision_budget, Processor};
use paddock_metal::qwen35::ternary::{
    half_at, load_weight, prepare_decay, ternary_word, validate_tensors, word_at, Module,
};
use paddock_metal::qwen35::vision_weight::{vision_text, vision_weight, widen};

fn refused<T>(r: Result<T, MetalError>) -> Fault {
    match r {
        Err(MetalError::Model(f) | MetalError::Memory(f)) => f,
        Ok(_) => panic!("accepted"),
    }
}

#[test]
fn names_are_spelled_out() {
    assert_eq!(decimal_text(0), "0");
    assert_eq!(decimal_text(18446744073709551615), u64::MAX.to_string());
    assert_eq!(block_text(12, "attn_q.weight"), "blk.12.attn_q.weight");
    assert_eq!(far_block_text(4294967296, "a"), "blk.4294967296.a");
    assert!(contains_part("model.mtp.fc", ".mtp.") && !contains_part("mtp.fc", ".mtp."));
    assert!(contains_part("abc", "") && contains_part("", "") && !contains_part("", "a"));
}

#[test]
fn header_checks_name_the_first_difference() {
    let t = |name: &str, dims: Vec<u64>, ty| Tensor {
        name: name.into(),
        dims,
        ty,
        bytes: 64,
        format_bytes: Some(64),
    };
    let h = Header {
        architecture: None,
        fields: vec![Field {
            key: "n".into(),
            unsigned: Some(0),
            single: Some(f32::NAN.to_bits()),
            flag: Some(false),
            list: Some(vec![Some(1), None]),
            reals: Some(vec![Some(7)]),
            text: Some("x".into()),
        }],
        tensors: vec![t("a", vec![4, 2], 8), t("b", vec![16], 0)],
        total: 128,
    };
    let e = |name: &str, dims: Vec<u64>, ty, resident| Entry { name: name.into(), dims, ty, resident };
    let list = vec![e("a", vec![4, 2], 8, true), e("b", vec![16], 0, false)];
    assert_eq!(h.check(&list), Ok(64));
    assert_eq!(h.check_fit(&vec![e("b", vec![16], u32::MAX, true)]), Ok(64));
    assert_eq!(refused(h.check_fit(&vec![e("b", vec![16], 8, true)])), Fault::Tensor { index: 0 });
    assert!(!h.has_foreign(&list));
    assert!(h.has_foreign(&vec![e("a", vec![4, 2], 8, true)]));
    assert_eq!(h.get_unsigned("n"), Some(0));
    assert_eq!(paddock_metal::header::get_count(&h, "n"), None);
    assert_eq!(paddock_metal::header::get_real(&h, "n"), None);
    assert_eq!(h.get_flag("n"), Some(false));
    assert!(h.text_is("n", "x") && h.reals_are("n", 1, 7) && !h.reals_are("n", 2, 7));
    assert!(!h.list_is("n", &vec![1]) && !h.list_is("n", &vec![1, 1]));
    assert_eq!(h.find_tensor("b"), Some(1));
    assert_eq!(h.find_tensor("c"), None);
    assert!(h.contains_field("n") && !h.contains_field("m"));
}

#[test]
fn stored_names_follow_their_directory() {
    let of = |name: &str, mapped: Option<&str>| hf_name(name, mapped);
    assert_eq!(of("token_embd.weight", None).unwrap(), "language_model.model.embed_tokens.weight");
    assert_eq!(of("output_norm.weight", None).unwrap(), "language_model.model.norm.weight");
    assert_eq!(of("output.weight", None).unwrap(), "language_model.lm_head.weight");
    assert_eq!(
        of("blk.0.attn_q.weight", Some("model.language_model.layers.0.q.weight")).unwrap(),
        "language_model.model.layers.0.q.weight"
    );
    assert_eq!(of("blk.0.attn_q.weight", Some("layers.0.q.weight")), None);
    assert_eq!(of("blk.0.attn_q.weight", None), None);
    assert_eq!(small_shape("blk.0.ssm_conv1d.weight", &vec![4, 8192]), [8192, 4, 1]);
    assert_eq!(small_shape("blk.0.ssm_a", &vec![3, 5]), [5, 3]);
}

fn shards<'a>(list: Vec<(&str, Dtype, Vec<u64>, &'a [u8])>) -> Shards<'a> {
    Shards {
        tensors: list
            .into_iter()
            .map(|(name, dtype, shape, data)| Stored { name: name.into(), dtype, shape, data })
            .collect(),
    }
}

#[test]
fn affine_planes_are_planned_by_shape() {
    let data = [0u8; 16];
    let s = shards(vec![("a", Dtype::Bf16, vec![8], &data), ("m", Dtype::U32, vec![2, 2], &data)]);
    assert_eq!(
        plan_affine(&s, "blk.0.ssm_a", "a", &vec![8]),
        Ok(Plan::Small { count: 8, decay: true, k: 8, n: 1 })
    );
    assert_eq!(plan_affine(&s, "x.weight", "m", &vec![64, 2]), Ok(Plan::Affine { k: 64, n: 2 }));
    assert_eq!(refused(plan_affine(&s, "x", "a", &vec![9])), Fault::Shape);
    assert_eq!(refused(plan_affine(&s, "x", "absent", &vec![8])), Fault::Missing);
    let mut cmd = Program::new();
    let (a, b) = (Buffer { id: 1, len: 16 }, Buffer { id: 2, len: 32 });
    widen_small(&mut cmd, a, b, 300, true);
    prepare_decay(&mut cmd, b, 300);
    match &cmd.ops[0] {
        Op::Kernel { kernel, params, grid, threads, .. } => {
            assert_eq!((*kernel, params.as_slice()), ("mlx_small", [300, 1].as_slice()));
            assert_eq!((*grid, *threads), ((2, 1, 1), 256));
        }
        _ => panic!("no kernel"),
    }
    assert_eq!(cmd.ops.len(), 2);
}

#[test]
fn packed_planes_keep_their_selector_in_half_precision() {
    let f = Formats { affine4: 0x104, packed4: 0x204 };
    let t = |affine, half| PackedTensor { dims: vec![256, 10], affine, half, tiled: 100, native: 200 };
    let w = splash_weight(&t(false, Some(50)), "selector_successor.weight", &vec![256, 10], 7, f).unwrap();
    assert_eq!((w.buffer, w.ty, w.k, w.n), (Buffer { id: 7, len: 50 }, 30, 256, 10));
    assert_eq!(
        refused(splash_weight(&t(false, None), "selector_successor.weight", &vec![256, 10], 7, f)),
        Fault::Selector
    );
    let w = splash_weight(&t(true, None), "x", &vec![256, 10], 7, f).unwrap();
    assert_eq!((w.buffer.len, w.ty), (100, 0x204));
    let w = splash_weight(&t(true, None), "token_embd.weight", &vec![256, 10], 7, f).unwrap();
    assert_eq!((w.buffer.len, w.ty), (200, 0x104));
    assert_eq!(refused(splash_weight(&t(true, None), "x", &vec![256, 11], 7, f)), Fault::Shape);
}

#[test]
fn words_are_little_endian_and_codes_have_three_levels() {
    let b = [1, 2, 3, 4, 5, 6, 7, 8];
    assert_eq!(word_at(&b, 1), 0x08070605);
    assert_eq!(half_at(&b, 3), 0x0807);
    for w in [0, 0x5555_5555, 0xaaaa_aaaa, 0x9999_9999] {
        assert!(ternary_word(w));
    }
    for i in 0..16 {
        assert!(!ternary_word(3 << (2 * i)));
    }
    // Neighbouring bits of two codes are no fourth level.
    assert!(ternary_word(0b0110));
}

fn words(list: &[u32]) -> Vec<u8> {
    list.iter().flat_map(|w| w.to_le_bytes()).collect()
}

#[test]
fn ternary_modules_are_checked_in_order() {
    let signs = words(&[1f32.to_bits(); 128]);
    let codes = words(&[0x5555_5555; 8]);
    let scales = 0x3c00u16.to_le_bytes();
    let biases = 0xbc00u16.to_le_bytes();
    let modules = vec![Module { name: "a".into(), width: 128, signs: vec![1f32.to_bits(); 128] }];
    let source = |signs, codes, scales, biases| {
        shards(vec![
            ("language_model.a.signs", Dtype::F32, vec![128], signs),
            ("language_model.a.weight", Dtype::U32, vec![1, 8], codes),
            ("language_model.a.scales", Dtype::F16, vec![1, 1], scales),
            ("language_model.a.biases", Dtype::F16, vec![1, 1], biases),
        ])
    };
    let check = |s: Shards| validate_tensors(&s, &modules);
    assert_eq!(check(source(&signs, &codes, &scales, &biases)), Ok(()));
    let flipped = words(&[(-1f32).to_bits(); 128]);
    assert_eq!(refused(check(source(&flipped, &codes, &scales, &biases))), Fault::Signs { index: 0 });
    let four = words(&[3; 8]);
    assert_eq!(refused(check(source(&signs, &four, &scales, &biases))), Fault::Codes { index: 0 });
    assert_eq!(refused(check(source(&signs, &codes, &scales, &scales))), Fault::Scales { index: 0 });
    let infinite = 0x7c00u16.to_le_bytes();
    let negative = 0xfc00u16.to_le_bytes();
    assert_eq!(
        refused(check(source(&signs, &codes, &infinite, &negative))),
        Fault::Scales { index: 0 }
    );
    assert_eq!(refused(check(shards(vec![]))), Fault::Signs { index: 0 });
    let stray = shards(vec![("x.mtp.y", Dtype::F32, vec![1], &signs)]);
    assert_eq!(refused(check(stray)), Fault::Foreign);
}

#[test]
fn ternary_planes_are_two_bit_or_single_precision() {
    let codes = words(&[0; 16]);
    let scales = [0u8; 4];
    let norm = words(&[1f32.to_bits(); 4]);
    let bad = words(&[f32::NAN.to_bits(); 4]);
    let s = shards(vec![
        ("language_model.lm_head.weight", Dtype::U32, vec![2, 8], &codes),
        ("language_model.lm_head.scales", Dtype::F16, vec![2, 1], &scales),
        ("language_model.model.norm.weight", Dtype::F32, vec![4], &norm),
        ("language_model.model.x", Dtype::F32, vec![4], &bad),
    ]);
    let (w, _) = load_weight(&s, "output.weight", None, &vec![128, 2], 9).unwrap();
    assert_eq!((w.buffer, w.ty, w.k, w.n), (Buffer { id: 9, len: 68 }, 0x102, 128, 2));
    let (w, _) = load_weight(&s, "output_norm.weight", None, &vec![4], 9).unwrap();
    assert_eq!((w.buffer.len, w.k, w.n), (16, 4, 1));
    assert_eq!(
        refused(load_weight(&s, "x", Some("model.language_model.x"), &vec![4], 9)),
        Fault::Nonfinite
    );
    assert_eq!(refused(load_weight(&s, "output.weight", None, &vec![128, 3], 9)), Fault::Shape);
    assert_eq!(refused(load_weight(&s, "y", None, &vec![4], 9)), Fault::Missing);
}

#[test]
fn half_precision_widens_exactly() {
    for h in 0..=u16::MAX {
        let exponent = (h >> 10) & 31;
        if exponent == 31 {
            continue;
        }
        let fraction = (h & 1023) as f32;
        let value = if exponent == 0 {
            fraction * 2f32.powi(-24)
        } else {
            (1. + fraction / 1024.) * 2f32.powi(exponent as i32 - 15)
        };
        let signed = if h >= 0x8000 { -value } else { value };
        assert_eq!(widen(h), signed.to_bits());
        assert_eq!(widen(h), half::f16::from_bits(h).to_f32().to_bits());
    }
}

#[test]
fn tower_planes_are_renamed_and_widened() {
    let name = |s: &str| vision_text(&s.to_string());
    assert_eq!(name("v.blk.3.attn_qkv.weight"), "vision_tower.blocks.3.attn.qkv.weight");
    assert_eq!(name("v.blk.3.ffn_down.bias"), "vision_tower.blocks.3.mlp.linear_fc2.bias");
    assert_eq!(name("mm.0.weight"), "vision_tower.merger.linear_fc1.weight");
    assert_eq!(name("v.patch_embd.weight.1"), "vision_tower.patch_embed.proj.weight");
    let data: Vec<u8> = [0x3c00u16, 0xc000].iter().flat_map(|h| h.to_le_bytes()).collect();
    let s = shards(vec![("vision_tower.merger.linear_fc1.bias", Dtype::F16, vec![2], &data)]);
    let key = "mm.0.bias".to_string();
    assert_eq!(vision_weight(&s, &key, &vec![2], true).unwrap(), data);
    assert_eq!(
        vision_weight(&s, &key, &vec![2], false).unwrap(),
        words(&[1f32.to_bits(), (-2f32).to_bits()])
    );
    assert_eq!(refused(vision_weight(&s, &key, &vec![1], false)), Fault::Shape);
    let data = 0x7c00u16.to_le_bytes();
    let s = shards(vec![("vision_tower.merger.linear_fc1.bias", Dtype::F16, vec![1], &data)]);
    assert_eq!(refused(vision_weight(&s, &key, &vec![1], false)), Fault::Nonfinite);
}

const DOCUMENT: &str = r#"{"patch_size":16,"temporal_patch_size":2,"merge_size":2,
"image_mean":[0.5,0.5,0.5],"image_std":[0.5,0.5,0.5],
"size":{"shortest_edge":65536,"longest_edge":16777216}}"#;

#[test]
fn processors_grant_their_pixels() {
    assert_eq!(vision_budget(DOCUMENT.as_bytes()), Ok((65536, 16777216)));
    let with = |from: &str, to: &str| refused(vision_budget(DOCUMENT.replacen(from, to, 1).as_bytes()));
    assert_eq!(with("\"patch_size\":16", "\"patch_size\":14"), Fault::Field { index: 0 });
    assert_eq!(with("temporal_patch_size", "temporal"), Fault::Field { index: 1 });
    assert_eq!(with("\"merge_size\":2", "\"merge_size\":\"2\""), Fault::Field { index: 2 });
    assert_eq!(with("[0.5,0.5,0.5]", "[0.5,0.5]"), Fault::Field { index: 3 });
    assert_eq!(with("\"image_std\":[0.5", "\"image_std\":[1"), Fault::Field { index: 4 });
    assert_eq!(with("65536", "65537"), Fault::Field { index: 5 });
    assert_eq!(with("16777216", "16778240"), Fault::Field { index: 6 });
    assert_eq!(with("{", "["), Fault::Document);
    assert_eq!(refused(vision_budget(&vec![b' '; 0x10_0001])), Fault::Overflow);
}

#[test]
fn grants_are_whole_patches() {
    let p = |least, most| Processor {
        patch_size: Some(16),
        temporal_patch_size: Some(2),
        merge_size: Some(2),
        image_mean: Some(vec![Some(0.5f64.to_bits()); 3]),
        image_std: Some(vec![Some(0.5f64.to_bits()); 3]),
        shortest_edge: Some(least),
        longest_edge: Some(most),
    };
    assert_eq!(grant(&p(1024, 2048)), Ok((1024, 2048)));
    assert_eq!(refused(grant(&p(512, 2048))), Fault::Field { index: 5 });
    assert_eq!(refused(grant(&p(2048, 1024))), Fault::Field { index: 6 });
}
