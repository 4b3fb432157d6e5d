use paddock_metal::error::{Fault, MetalError};
use paddock_metal::header::{Field, Header, Tensor};
use paddock_metal::offload::Configured;
use paddock_metal::program::Buffer;
use paddock_metal::qwen35::attach_mtp::rebase;
use paddock_metal::qwen35::draft::split_draft;
use paddock_metal::qwen35::geometry::Geometry;
use paddock_metal::qwen35::graph::{Lanes, Verify};
use paddock_metal::qwen35::load::Machine;
use paddock_metal::qwen35::checkpoint::{Formats, PackedTensor};
use paddock_metal::qwen35::schema::build_schema;
use paddock_metal::qwen35::source::{Packed, Source, Store};
use paddock_metal::qwen35::state::Qwen35;

const VOCAB: usize = 1000;

fn field(key: &str) -> Field {
    Field {
        key: key.into(),
        unsigned: None,
        single: None,
        flag: None,
        list: None,
        reals: None,
        text: None,
    }
}

fn number(key: &str, n: u64) -> Field {
    Field { unsigned: Some(n), ..field(key) }
}

fn tensor(name: String, dims: &[u64], ty: u32) -> Tensor {
    let bytes = 4 * dims.iter().product::<u64>();
    Tensor { name, dims: dims.to_vec(), ty, bytes, format_bytes: Some(bytes) }
}

fn model(g: Geometry) -> Qwen35 {
    let mut h = Header {
        architecture: Some("qwen35".into()),
        fields: vec![
            number("embedding_length", g.width as u64),
            number("feed_forward_length", g.ff as u64),
            number("block_count", g.layers as u64),
            number("context_length", 65536),
            number("rope.dimension_count", 64),
            Field { single: Some(1e-6f32.to_bits()), ..field("attention.layer_norm_rms_epsilon") },
            Field { single: Some(1e7f32.to_bits()), ..field("rope.freq_base") },
            number("attention.head_count", g.heads as u64),
            number("attention.head_count_kv", g.kv_heads as u64),
            number("ssm.time_step_rank", g.value_heads as u64),
            number("attention.key_length", 256),
            number("attention.value_length", 256),
            number("full_attention_interval", 4),
            number("ssm.state_size", 128),
            number("ssm.group_count", 16),
            number("ssm.conv_kernel", 4),
            Field {
                list: Some(vec![Some(11), Some(11), Some(10), Some(0)]),
                ..field("rope.dimension_sections")
            },
        ],
        tensors: vec![],
        total: 0,
    };
    h.tensors = build_schema(&h, true, g, VOCAB)
        .iter()
        .map(|e| tensor(e.name.clone(), &e.dims, if e.ty == u32::MAX { 0 } else { e.ty }))
        .collect();
    let machine = Machine {
        budget: 1 << 44,
        accelerated: true,
        lanes: Lanes { affine4: 0x104, long_decode: 1024, decode_parts: 8 },
        packed_workspace: 0,
        packed_attention: 0,
    };
    Qwen35::load(&mapped(h), 4096, 4, machine, &Configured { value: None }).unwrap().model
}

fn mapped(header: Header) -> Source<'static> {
    Source { header, names: vec![], store: Store::Mapped { rotated: Some(false) } }
}

fn verify() -> Verify {
    let b = |id| Buffer { id, len: 64 };
    Verify {
        rows: 32,
        live: 4,
        conv_input: b(900),
        updates: b(901),
        logits: b(902),
        hidden: b(903),
        picks: b(904),
    }
}

fn next_token(g: Geometry, i: u64) -> Header {
    let (w, ff) = (g.width as u64, g.ff as u64);
    let (q, kv, o) = ((g.heads * 512) as u64, (g.kv_heads * 256) as u64, (g.heads * 256) as u64);
    let mut tensors = vec![];
    for (name, dims) in [
        ("attn_norm.weight", vec![w]),
        ("post_attention_norm.weight", vec![w]),
        ("attn_q.weight", vec![w, q]),
        ("attn_k.weight", vec![w, kv]),
        ("attn_v.weight", vec![w, kv]),
        ("attn_output.weight", vec![o, w]),
        ("attn_q_norm.weight", vec![256]),
        ("attn_k_norm.weight", vec![256]),
        ("ffn_gate.weight", vec![w, ff]),
        ("ffn_up.weight", vec![w, ff]),
        ("ffn_down.weight", vec![ff, w]),
        ("nextn.eh_proj.weight", vec![2 * w, w]),
        ("nextn.enorm.weight", vec![w]),
        ("nextn.hnorm.weight", vec![w]),
        ("nextn.shared_head_norm.weight", vec![w]),
    ] {
        tensors.push(tensor(format!("blk.{i}.{name}"), &dims, 0));
    }
    Header {
        architecture: Some("qwen35".into()),
        fields: vec![number("nextn_predict_layers", 1), number("block_count", i + 1)],
        tensors,
        total: 0,
    }
}

fn block_drafter() -> Header {
    let mut tensors = vec![];
    for i in 0..5 {
        for (name, dims) in [
            ("attn_norm.weight", vec![5120]),
            ("ffn_norm.weight", vec![5120]),
            ("attn_q.weight", vec![5120, 4096]),
            ("attn_k.weight", vec![5120, 1024]),
            ("attn_v.weight", vec![5120, 1024]),
            ("attn_output.weight", vec![4096, 5120]),
            ("attn_q_norm.weight", vec![128]),
            ("attn_k_norm.weight", vec![128]),
            ("ffn_gate.weight", vec![5120, 17408]),
            ("ffn_up.weight", vec![5120, 17408]),
            ("ffn_down.weight", vec![17408, 5120]),
            ("attn_conv_base", vec![5120, 2, 2]),
            ("attn_conv_proj.weight", vec![5120, 1280]),
            ("ffn_conv_base", vec![5120, 2, 2]),
            ("ffn_conv_proj.weight", vec![5120, 1280]),
        ] {
            tensors.push(tensor(format!("blk.{i}.{name}"), &dims, 0));
        }
    }
    for (name, dims) in [
        ("fc.weight", vec![25600, 5120]),
        ("enc.output_norm.weight", vec![5120]),
        ("output_norm.weight", vec![5120]),
        ("selector_hidden.weight", vec![5120, 256]),
        ("selector_predecessor.weight", vec![256, VOCAB as u64]),
        ("selector_successor.weight", vec![256, VOCAB as u64]),
    ] {
        tensors.push(tensor(name.into(), &dims, if name.contains("cessor") { 12 } else { 0 }));
    }
    Header {
        architecture: Some("dflash".into()),
        fields: vec![
            number("embedding_length", 5120),
            number("feed_forward_length", 17408),
            number("block_count", 5),
            number("attention.head_count", 32),
            number("attention.head_count_kv", 8),
            number("attention.key_length", 128),
            number("attention.value_length", 128),
            number("attention.sliding_window", 2048),
            number("block_size", 8),
            number("conv_kernel_size", 2),
            number("conv_group_size", 16),
            number("selector_rank", 256),
            number("selector_top_k", 16),
            Field {
                list: Some([6, 20, 34, 48, 62].map(Some).to_vec()),
                ..field("target_layers")
            },
            Field { flag: Some(false), ..field("attention.causal") },
            Field { single: Some(1e7f32.to_bits()), ..field("rope.freq_base") },
            Field { single: Some(1e-6f32.to_bits()), ..field("attention.layer_norm_rms_epsilon") },
            number("tokenizer.ggml.mask_token_id", 248070),
        ],
        tensors,
        total: 0,
    }
}

fn refused<T>(r: Result<T, MetalError>) -> Fault {
    match r {
        Err(MetalError::Model(f) | MetalError::Memory(f)) => f,
        Ok(_) => panic!("accepted"),
    }
}

#[test]
fn a_next_token_block_attaches_once_and_first() {
    let g = Geometry::dense_9b();
    let h = next_token(g, 32);
    let mut m = model(g);
    let added = m.attach_mtp(&h, false, 1024, 700, verify()).unwrap();
    assert_eq!(added.weight_bytes, h.tensors.iter().map(|t| t.bytes as u128).sum());
    assert_eq!(added.kv_bytes, 2 * 1024 * 16 * 4 * 256 * 2);
    assert!(m.graph.mtp.is_some());
    assert_eq!(m.graph.spec.as_ref().unwrap().rows, 32);
    assert_eq!(refused(m.attach_mtp(&h, false, 1024, 700, verify())), Fault::Attached);
    let fault = |h: &Header, cold| refused(model(g).attach_mtp(h, cold, 1024, 700, verify()));
    assert_eq!(fault(&h, true), Fault::Attached);
    let mut other = next_token(g, 32);
    other.fields[0].unsigned = Some(2);
    assert_eq!(fault(&other, false), Fault::Architecture);
    let mut other = next_token(g, 32);
    other.fields.pop();
    assert_eq!(fault(&other, false), Fault::Field { index: 3 });
    let mut other = next_token(g, 32);
    other.tensors[13].dims = vec![7];
    assert_eq!(fault(&other, false), Fault::Tensor { index: 13 });
    let mut m = model(g);
    m.graph.mlx = true;
    assert_eq!(refused(m.attach_mtp(&h, false, 1024, 700, verify())), Fault::Companion);
    m.graph.mlx = false;
    m.reserve_mtp_rows(8, 50);
    assert!(m.graph.mtp.is_none());
}

#[test]
fn chained_drafts_are_planned_for_ready_cohorts() {
    let g = Geometry::dense_9b();
    let mut m = model(g);
    assert_eq!(m.mtp_draft(&vec![(0, 5)], 3).map(|d| d.is_none()), Ok(true));
    m.attach_mtp(&next_token(g, 32), false, 1024, 700, verify()).unwrap();
    m.slots[0].history = vec![1, 2, 3];
    m.slots[2].history = vec![4];
    let d = m.mtp_draft(&vec![(0, 5), (2, 6)], 9).unwrap().unwrap();
    assert_eq!(d.k, 7);
    assert_eq!(d.rows.iter().map(|r| (r.slot, r.token, r.position)).collect::<Vec<_>>(), [
        (0, 5, 3),
        (2, 6, 1)
    ]);
    assert_eq!(d.horizons[0].position, 10);
    assert_eq!((&d.decode_rows, &d.limits), (&vec![0, 1], &vec![3, 1]));
    let companion = m.graph.mtp.as_ref().unwrap();
    assert_eq!(d.read_back(companion), (companion.drafted, 14));
    let w = d.writes(&m);
    let s = &m.graph.scratch;
    assert_eq!(w.iter().map(|w| w.buffer).collect::<Vec<_>>(), [
        s.ids,
        s.meta,
        s.decode_rows,
        s.mrope,
        s.limits,
        s.pages
    ]);
    assert_eq!((&w[0].words, &w[1].words), (&vec![5, 6], &vec![0, 3, 2, 1]));
    let load = m.chain_load(&d);
    assert_eq!((load.rows, load.tiles, load.decode_rows, load.decode_length), (2, 0, 2, 10));
    let got = d.collect(&(100..114).collect());
    assert_eq!(got, [(100..107).collect::<Vec<u32>>(), (107..114).collect()]);
    assert!(m.mtp_draft(&vec![(0, 5), (0, 6)], 3).unwrap().is_none());
    assert!(m.mtp_draft(&vec![(0, 5)], 0).unwrap().is_none());
    m.uncommitted = true;
    assert_eq!(refused(m.mtp_draft(&vec![(0, 5)], 3)), Fault::Uncommitted);
    assert_eq!(split_draft(&vec![1, 2, 3, 4, 5, 6], 3, 1, 2), [vec![2, 3], vec![5, 6]]);
}

/// The same drafter in packed form.
fn packed_drafter() -> Source<'static> {
    let one = |t: Tensor| {
        let bytes = t.dims.iter().product::<u64>();
        let selects = t.name == "selector_predecessor.weight" || t.name == "selector_successor.weight";
        let affine = !selects && t.dims.len() == 2;
        let half = if selects { Some(bytes * 2) } else { None };
        Packed { name: t.name, tensor: PackedTensor { dims: t.dims, affine, half, tiled: bytes, native: bytes } }
    };
    let tensors = block_drafter().tensors.into_iter().map(one).collect();
    let header = Header { architecture: None, fields: vec![], tensors: vec![], total: 0 };
    let formats = Formats { affine4: 0x104, packed4: 0x204 };
    Source { header, names: vec![], store: Store::Packed { tensors, formats } }
}

#[test]
fn packed_drafters_keep_their_selector_in_half_precision() {
    let mut m = model(Geometry::dense_27b());
    m.graph.splash = true;
    m.graph.mlx = true;
    let (added, _) = m.attach_dflash(&packed_drafter(), false, 700, verify(), 1 << 20).unwrap();
    let d = m.graph.dflash.as_ref().unwrap();
    assert_eq!((d.pred.ty, d.pred.buffer.len), (30, 512 * VOCAB as u64));
    assert_eq!((d.fc.ty, d.fc.buffer), (0x204, Buffer { id: 775, len: 25600 * 5120 }));
    assert!(added.weight_bytes > 25600 * 5120);
    let mut other = packed_drafter();
    if let Store::Packed { tensors, .. } = &mut other.store {
        tensors[79].tensor.half = None;
    }
    let mut m = model(Geometry::dense_27b());
    m.graph.splash = true;
    m.graph.mlx = true;
    let r = m.attach_dflash(&other, false, 700, verify(), 1 << 20);
    assert_eq!(refused(r), Fault::Tensor { index: 79 });
}

#[test]
fn the_block_drafter_attaches_to_its_shape_only() {
    let whole: u128 = block_drafter().tensors.iter().map(|t| t.bytes as u128).sum();
    let h = mapped(block_drafter());
    let packed = packed_drafter();
    let mut m = model(Geometry::dense_9b());
    assert_eq!(refused(m.attach_dflash(&h, false, 700, verify(), 0)), Fault::Geometry);
    let mut m = model(Geometry::dense_27b());
    assert_eq!(refused(m.attach_dflash(&packed, false, 700, verify(), 0)), Fault::Companion);
    for i in 0..13 {
        let mut other = block_drafter();
        other.fields.remove(i);
        assert_eq!(
            refused(m.attach_dflash(&mapped(other), false, 700, verify(), 0)),
            Fault::Field { index: i }
        );
    }
    let mut other = block_drafter();
    other.fields[14].flag = Some(true);
    assert_eq!(refused(m.attach_dflash(&mapped(other), false, 700, verify(), 0)), Fault::Field { index: 13 });
    let mut other = block_drafter();
    other.tensors[79].ty = 3;
    assert_eq!(refused(m.attach_dflash(&mapped(other), false, 700, verify(), 0)), Fault::Selector);
    let (added, table) = m.attach_dflash(&h, false, 700, verify(), 0).unwrap();
    assert_eq!(added.weight_bytes, whole);
    assert_eq!(table.len(), 4 * 256);
    let d = m.graph.dflash.as_ref().unwrap();
    assert_eq!(d.layers.len(), 5);
    assert_eq!(d.fc.buffer.id, 700 + 75);
    assert_eq!(refused(m.attach_dflash(&h, false, 700, verify(), 0)), Fault::Attached);
}

#[test]
fn block_drafts_fill_one_block_per_sequence() {
    let mut m = model(Geometry::dense_27b());
    m.attach_dflash(&mapped(block_drafter()), false, 700, verify(), 0).unwrap();
    m.slots[1].history = vec![1, 2];
    let d = m.dflash_draft(&vec![(1, 9)], 4).unwrap().unwrap();
    assert_eq!(d.block, 5);
    assert_eq!(d.rows.len(), 5);
    assert_eq!((d.rows[0].token, d.rows[1].token), (9, 248070));
    assert_eq!(d.tiles, [0, 5]);
    let companion = m.graph.dflash.as_ref().unwrap();
    assert_eq!(d.read_back(companion), (companion.out, 5));
    assert_eq!(d.collect(&vec![9, 1, 2, 3, 4], 1), [vec![1, 2, 3, 4]]);
    assert!(m.graph.draft_room(1, 5));
    let w = d.writes(&m.graph);
    assert_eq!((w.len(), w[2].buffer, &w[2].words), (4, m.graph.scratch.attn_tiles, &vec![0, 5]));
    assert_eq!(m.dflash_draft(&vec![(1, 9)], 20).unwrap().unwrap().block, 8);
    assert!(m.dflash_draft(&vec![], 4).unwrap().is_none());
    m.uncommitted = true;
    assert_eq!(refused(m.dflash_draft(&vec![(1, 9)], 4)), Fault::Uncommitted);
}

#[test]
fn allocations_are_rebased() {
    let w = paddock_metal::program::Weight { buffer: Buffer { id: 3, len: 8 }, ty: 0, k: 2, n: 1 };
    assert_eq!(rebase(w, 100).buffer, Buffer { id: 103, len: 8 });
}
