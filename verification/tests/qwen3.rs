use paddock_metal::error::{Fault, MetalError};
use paddock_metal::header::{Field, Header, Tensor};
use paddock_metal::program::{Buffer, Op};
use paddock_metal::qwen3::encode::{scores, Storage};
use paddock_metal::qwen3::load::Qwen3Encoder;

fn field(key: &str) -> Field {
    Field {
        key: key.into(),
        unsigned: None,
        single: None,
        flag: None,
        list: None,
        reals: None,
        text: None,
    }
}

fn number(key: &str, n: u64) -> Field {
    Field { unsigned: Some(n), ..field(key) }
}

fn tensor(name: &str, dims: &[u64]) -> Tensor {
    let n: u64 = dims.iter().product();
    let (ty, bytes) = if dims.len() == 2 { (8, n / 32 * 34) } else { (0, n * 4) };
    Tensor { name: name.into(), dims: dims.to_vec(), ty, bytes, format_bytes: Some(bytes) }
}

const VOCAB: u64 = 1000;

fn header(head: bool) -> Header {
    let mut tensors = vec![tensor("token_embd.weight", &[1024, VOCAB]), tensor("output_norm.weight", &[1024])];
    if head {
        tensors.push(tensor("output.weight", &[1024, VOCAB]));
    }
    for i in 0..28 {
        for (name, dims) in [
            ("attn_norm.weight", vec![1024]),
            ("attn_q.weight", vec![1024, 2048]),
            ("attn_k.weight", vec![1024, 1024]),
            ("attn_v.weight", vec![1024, 1024]),
            ("attn_q_norm.weight", vec![128]),
            ("attn_k_norm.weight", vec![128]),
            ("attn_output.weight", vec![2048, 1024]),
            ("ffn_norm.weight", vec![1024]),
            ("ffn_gate.weight", vec![1024, 3072]),
            ("ffn_up.weight", vec![1024, 3072]),
            ("ffn_down.weight", vec![3072, 1024]),
        ] {
            tensors.push(tensor(&format!("blk.{i}.{name}"), &dims));
        }
    }
    Header {
        architecture: Some("qwen3".into()),
        fields: vec![
            number("embedding_length", 1024),
            number("feed_forward_length", 3072),
            number("block_count", 28),
            number("attention.head_count", 16),
            number("attention.head_count_kv", 8),
            number("attention.key_length", 128),
            number("attention.value_length", 128),
            number("rope.dimension_count", 128),
            number("context_length", 32768),
            Field { single: Some(1e-6f32.to_bits()), ..field("attention.layer_norm_rms_epsilon") },
            Field { single: Some(1e6f32.to_bits()), ..field("rope.freq_base") },
        ],
        tensors,
        total: 0,
    }
}

const GRANT: u64 = 1 << 36;

fn model(head: bool) -> Qwen3Encoder {
    Qwen3Encoder::load(&header(head), 512, GRANT, 77).unwrap()
}

fn refused<T>(r: Result<T, MetalError>) -> Fault {
    match r {
        Err(MetalError::Model(f) | MetalError::Memory(f)) => f,
        Ok(_) => panic!("accepted"),
    }
}

fn load(h: &Header) -> Fault {
    refused(Qwen3Encoder::load(h, 512, GRANT, 77))
}

#[test]
fn an_elected_encoder_loads() {
    let m = model(false);
    assert_eq!((m.layers.len(), m.width, m.vocab), (28, 1024, 1000));
    assert!(m.head.is_none() && model(true).head.is_some());
    assert_eq!(m.row_budget, 8192);
    assert_eq!((m.coalesce_row_budget(), m.lanes(), m.weights_mem_bytes()), (8192, 1, m.weight_bytes));
    let bytes: u64 = header(false).tensors.iter().map(|t| t.bytes).sum();
    assert_eq!(m.weight_bytes, bytes);
    let s = &m.scratch;
    let planes = [
        &s.x, &s.norm, &s.q, &s.k, &s.v, &s.qh, &s.kh, &s.vh, &s.attn, &s.delta, &s.gate, &s.up, &s.gemm,
    ];
    let per_row = 4 * (3 * 1024 + 2 * 2048 + 2 * 1024 + 2 * 3072) + 2 * (2048 + 2 * 1024 + 3072);
    assert_eq!(planes.iter().map(|b| b.len).sum::<u64>(), 8192 * per_row);
}

#[test]
fn every_field_is_read_in_order() {
    for (i, index) in [(0, 0), (1, 1), (2, 2), (3, 3), (4, 4), (5, 5), (6, 6), (8, 8), (9, 9), (10, 10)] {
        let mut h = header(false);
        h.fields.remove(i);
        assert_eq!(load(&h), Fault::Field { index });
    }
    let mut h = header(false);
    h.fields.remove(7);
    assert!(Qwen3Encoder::load(&h, 512, GRANT, 77).is_ok());
    let mut h = header(false);
    h.fields[7].unsigned = None;
    assert_eq!(load(&h), Fault::Field { index: 7 });
    let mut h = header(false);
    h.fields[0].unsigned = Some(2048);
    assert_eq!(load(&h), Fault::Geometry);
    let mut h = header(false);
    h.architecture = None;
    assert_eq!(load(&h), Fault::Architecture);
    let mut h = header(false);
    h.fields.push(field("attention.sliding_window"));
    assert_eq!(load(&h), Fault::Scaled);
}

#[test]
fn tensors_and_grants_are_checked() {
    let mut h = header(false);
    h.tensors[0].dims = vec![1024];
    assert_eq!(load(&h), Fault::Vocabulary);
    let mut h = header(false);
    h.tensors[3].ty = 30;
    assert_eq!(load(&h), Fault::Format { index: 3 });
    let mut h = header(false);
    h.tensors.push(tensor("extra", &[4]));
    assert_eq!(load(&h), Fault::Unexpected { index: 2 + 28 * 11 });
    let mut h = header(false);
    h.tensors[3].dims = vec![1024, 1024];
    assert_eq!(load(&h), Fault::Tensor { index: 3 });
    for context in [0, 32769] {
        assert_eq!(refused(Qwen3Encoder::load(&header(false), context, GRANT, 7)), Fault::Range);
    }
    assert_eq!(
        Qwen3Encoder::load(&header(false), 512, 1024, 77).err(),
        Some(MetalError::Memory(Fault::Budget))
    );
    let m = model(false);
    let tight = Qwen3Encoder::load(&header(false), 512, m.weight_bytes + (1 << 27), 77).unwrap();
    assert!(tight.row_budget < 8192 && tight.row_budget % 128 == 0);
}

#[test]
fn batches_are_packed_behind_each_other() {
    let m = model(false);
    let seqs = vec![vec![1, 2, 3], (0..40).collect()];
    assert_eq!(m.validate(&seqs), Ok(()));
    let e = m.pack(&seqs, None, 0).unwrap();
    assert_eq!(e.ids.len(), 43);
    assert_eq!(e.ids[..4], [1, 2, 3, 0]);
    assert_eq!(e.last, [2, 42]);
    let all: Vec<u32> = seqs.concat();
    assert_eq!(e.ids, all);
}

#[test]
fn bad_submissions_are_refused() {
    let m = model(false);
    let one = vec![vec![1u32]];
    assert_eq!(refused(m.pack(&vec![], None, 0)), Fault::Batch);
    assert_eq!(refused(m.pack(&one, None, 1)), Fault::Batch);
    assert_eq!(refused(m.pack(&vec![vec![1; 513]], None, 0)), Fault::Input);
    assert_eq!(refused(m.pack(&vec![vec![]], None, 0)), Fault::Input);
    assert_eq!(refused(m.pack(&vec![vec![1000]], None, 0)), Fault::Input);
    assert_eq!(refused(m.pack(&one, Some((1, 1000)), 0)), Fault::Head);
    assert_eq!(refused(m.pack(&vec![vec![1; 512]; 17], None, 0)), Fault::Input);
    assert_eq!(refused(m.validate(&vec![])), Fault::Input);
}

#[test]
fn results_belong_to_their_encoder() {
    let m = model(true);
    let seqs = vec![vec![1u32, 2], vec![3]];
    let b = |id| Buffer { id, len: 8192 };
    let plain = Storage { ids: b(1), meta: b(2), tiles: b(3), last: b(4), pooled: b(5), scores: None };
    let e = m.pack(&seqs, None, 0).unwrap();
    let sized = m.storage(&seqs, &e, None, 10);
    assert_eq!((sized.ids, sized.meta), (Buffer { id: 10, len: 12 }, Buffer { id: 11, len: 24 }));
    assert_eq!((sized.tiles.len, sized.last.len), (16, 8));
    assert_eq!((sized.pooled, sized.scores), (Buffer { id: 14, len: 2 * 1024 * 4 }, None));
    assert_eq!(m.storage(&seqs, &e, Some((7, 8)), 10).scores, Some(Buffer { id: 15, len: 8 }));
    let w = e.writes(plain);
    assert_eq!((w[0].buffer, &w[0].words, w.len()), (b(1), &vec![1, 2, 3], 4));
    assert_eq!((w[3].buffer, &w[3].words), (b(4), &vec![1, 2]));
    let (cmd, p) = m.submit(&seqs, &e, plain, None);
    assert!(matches!(&cmd.ops[0], Op::Kernel { kernel, .. } if kernel.contains("embed")));
    assert_eq!((p.n, p.output, p.inputs.len()), (2, b(5), 4));
    assert_eq!(m.embed_collect(&p), Ok((p.output, 2048)));
    assert_eq!(refused(m.rerank_collect(&p, 1, 2)), Fault::Completion);
    let values: Vec<u32> = (0..2048).collect();
    let rows = m.embeddings(&p, &values).unwrap();
    assert_eq!((rows.len(), rows[1][0]), (2, 1024));
    let mut bad = values;
    bad[7] = f32::INFINITY.to_bits();
    assert_eq!(refused(m.embeddings(&p, &bad)), Fault::Nonfinite);
    let other = Qwen3Encoder::load(&header(true), 512, GRANT, 78).unwrap();
    assert_eq!(refused(other.embed_collect(&p)), Fault::Completion);
    let scored = Storage {
        ids: b(1),
        meta: b(2),
        tiles: b(3),
        last: b(4),
        pooled: b(5),
        scores: Some(b(6)),
    };
    let (_, p) = m.submit(&seqs, &e, scored, Some((7, 8)));
    assert_eq!((p.output, p.inputs.len()), (b(6), 5));
    assert_eq!(m.rerank_collect(&p, 7, 8), Ok((p.output, 2)));
    assert_eq!(refused(m.embed_collect(&p)), Fault::Completion);
}

#[test]
fn scores_lie_between_zero_and_one() {
    let bits = |x: f32| x.to_bits();
    assert!(scores(vec![bits(0.), bits(0.5), bits(1.)]).is_ok());
    for bad in [-0.5, 1.5, f32::NAN, f32::INFINITY] {
        assert_eq!(refused(scores(vec![bits(0.5), bits(bad)])), Fault::Nonfinite);
    }
}
