use paddock_metal::error::{Fault, MetalError};
use paddock_metal::header::{Field, Header, Tensor};
use paddock_metal::nemotron::graph::{Block, Mixer, Nemotron, Scratch, VOCAB};
use paddock_metal::nemotron::load::NemotronConfig;
use paddock_metal::nemotron::mixed::split_logits;
use paddock_metal::nemotron::serving::{PageAction, PageEvent};
use paddock_metal::program::Op;
use paddock_metal::rows::Row;

fn blocks() -> Vec<Block> {
    let mut mamba = false;
    (0..52)
        .map(|i| {
            if [5, 12, 19, 26, 33, 42].contains(&i) {
                Block::Attention
            } else {
                mamba = !mamba;
                if mamba {
                    Block::Mamba
                } else {
                    Block::Moe
                }
            }
        })
        .collect()
}

fn config() -> NemotronConfig {
    NemotronConfig {
        hidden: 2688,
        vocab: 131072,
        n_layer: 52,
        n_heads: 32,
        n_kv_heads: 2,
        head_dim: 128,
        mamba_heads: 64,
        mamba_head_dim: 64,
        d_state: 128,
        d_conv: 4,
        n_groups: 8,
        n_expert: 128,
        n_active: 6,
        moe_ff: 1856,
        shared_ff: 3712,
        eps: 1e-5f32.to_bits(),
        routed_scale: 2.5f32.to_bits(),
        max_pos: 1 << 20,
        blocks: blocks(),
    }
}

fn tensor(name: String, dims: &[u64], ty: u32) -> Tensor {
    let n: u64 = dims.iter().product();
    let bytes = match ty {
        8 => n / 32 * 34,
        30 => n * 2,
        _ => n * 4,
    };
    Tensor { name, dims: dims.to_vec(), ty, bytes, format_bytes: Some(bytes) }
}

fn block(out: &mut Vec<Tensor>, i: usize, kind: Option<Block>) {
    let mut add = |name: &str, dims: &[u64], ty| out.push(tensor(format!("blk.{i}.{name}"), dims, ty));
    add("attn_norm.weight", &[2688], 0);
    if kind != Some(Block::Moe) && kind != Some(Block::Mamba) {
        add("attn_q.weight", &[2688, 4096], 8);
        add("attn_k.weight", &[2688, 256], 8);
        add("attn_v.weight", &[2688, 256], 8);
        add("attn_output.weight", &[4096, 2688], 8);
    }
    if kind.is_none() || kind == Some(Block::Moe) {
        add("ffn_gate_inp.weight", &[2688, 128], if kind.is_none() { 30 } else { 0 });
        add("exp_probs_b.bias", &[128], 0);
        add("ffn_up_exps.weight", &[2688, 1856, 128], 8);
        add("ffn_down_exps.weight", &[1856, 2688, 128], 8);
        add("ffn_up_shexp.weight", &[2688, 3712], 8);
        add("ffn_down_shexp.weight", &[3712, 2688], 8);
    }
    if kind == Some(Block::Mamba) {
        add("ssm_in.weight", &[2688, 10304], 8);
        add("ssm_out.weight", &[4096, 2688], 8);
        add("ssm_conv1d.weight", &[4, 6144], 0);
        add("ssm_conv1d.bias", &[6144], 0);
        add("ssm_a", &[1, 64], 0);
        add("ssm_d", &[1, 64], 0);
        add("ssm_dt.bias", &[64], 0);
        add("ssm_norm.weight", &[512, 8], 0);
    }
    if kind.is_none() {
        add("nextn.eh_proj.weight", &[5376, 2688], 8);
        add("nextn.enorm.weight", &[2688], 0);
        add("nextn.hnorm.weight", &[2688], 0);
        add("nextn.shared_head_norm.weight", &[2688], 0);
        add("post_attention_norm.weight", &[2688], 0);
    }
}

fn header() -> Header {
    let number = |key: &str| Field {
        key: key.into(),
        unsigned: Some(1),
        single: None,
        flag: None,
        list: None,
        reals: None,
        text: None,
    };
    let mut tensors = vec![
        tensor("token_embd.weight".into(), &[2688, 131072], 8),
        tensor("output.weight".into(), &[2688, 131072], 8),
        tensor("output_norm.weight".into(), &[2688], 0),
    ];
    for (i, kind) in blocks().into_iter().enumerate() {
        block(&mut tensors, i, Some(kind));
    }
    block(&mut tensors, 52, None);
    Header {
        architecture: Some("nemotron_h_moe".into()),
        fields: vec![
            number("expert_group_count"),
            number("expert_group_used_count"),
            number("expert_shared_count"),
            number("nextn_predict_layers"),
        ],
        tensors,
        total: 0,
    }
}

const GRANT: u64 = 1 << 42;

fn model() -> Nemotron {
    Nemotron::load(&config(), &header(), 4096, 4, GRANT).unwrap()
}

fn refused<T>(r: Result<T, MetalError>) -> Fault {
    match r {
        Err(MetalError::Model(f) | MetalError::Memory(f)) => f,
        Ok(_) => panic!("accepted"),
    }
}

fn row(slot: usize, token: u32, position: u32) -> Row {
    Row { slot, token, position }
}

#[test]
fn the_elected_hybrid_loads() {
    let m = model();
    assert_eq!(m.layers.len(), 52);
    assert!(matches!(m.layers[5].mixer, Mixer::Attention(_)));
    assert!(matches!(m.layers[0].mixer, Mixer::Mamba(_)));
    let resident: u64 = header()
        .tensors
        .iter()
        .filter(|t| !t.name.starts_with("blk.52."))
        .map(|t| t.bytes)
        .sum();
    assert_eq!(m.weight_bytes, resident);
    let mut planes = 0;
    for l in &m.layers {
        match &l.mixer {
            Mixer::Mamba(s) => planes += s.state.len + s.window.len,
            Mixer::Attention(a) => planes += a.keys.len + a.values.len,
            Mixer::Moe(_) => {}
        }
    }
    assert_eq!(planes, m.cache_bytes);
}

#[test]
fn the_least_grant_is_exact() {
    let m = model();
    let scratch = Scratch::sizes(4, 256).iter().sum::<usize>() as u64;
    let need = m.weight_bytes + m.cache_bytes + scratch;
    assert!(Nemotron::load(&config(), &header(), 4096, 4, need).is_ok());
    assert_eq!(
        Nemotron::load(&config(), &header(), 4096, 4, need - 1).err(),
        Some(MetalError::Memory(Fault::Budget))
    );
}

#[test]
fn other_shapes_and_inventories_are_refused() {
    let h = header();
    let mut c = config();
    c.blocks.swap(4, 5);
    assert_eq!(refused(Nemotron::load(&c, &h, 4096, 4, GRANT)), Fault::Geometry);
    for (context, batch) in [(0, 4), (32769, 4), (4096, 0), (4096, 65)] {
        assert_eq!(refused(Nemotron::load(&config(), &h, context, batch, GRANT)), Fault::Range);
    }
    let short = NemotronConfig { max_pos: 4095, ..config() };
    assert_eq!(refused(Nemotron::load(&short, &h, 4096, 4, GRANT)), Fault::Range);
    for index in 0..4 {
        let mut h = header();
        h.fields[index].unsigned = Some(2);
        assert_eq!(refused(Nemotron::load(&config(), &h, 4096, 4, GRANT)), Fault::Field { index });
    }
    let mut h = header();
    h.tensors[1].dims = vec![131072, 2688];
    assert_eq!(refused(Nemotron::load(&config(), &h, 4096, 4, GRANT)), Fault::Tensor { index: 1 });
    let mut h = header();
    h.tensors.push(tensor("blk.53.attn_norm.weight".into(), &[2688], 0));
    assert_eq!(refused(Nemotron::load(&config(), &h, 4096, 4, GRANT)), Fault::Foreign);
}

#[test]
fn ticks_are_validated_row_by_row() {
    let m = model();
    let fault = |rows: Vec<Row>, outputs: Vec<usize>| refused(m.plan(rows, outputs));
    assert_eq!(fault(vec![], vec![]), Fault::Selection);
    assert_eq!(fault(vec![row(0, 1, 0)], vec![1]), Fault::Selection);
    let unsound = Fault::Row { slot: 4, token: 1, position: 0 };
    assert_eq!(fault(vec![row(4, 1, 0)], vec![0]), unsound);
    assert_eq!(
        fault(vec![row(0, 1, 1)], vec![0]),
        Fault::Row { slot: 0, token: 1, position: 1 }
    );
    assert_eq!(
        fault(vec![row(0, 1, 0), row(1, 1, 0), row(0, 2, 1)], vec![0]),
        Fault::Revisited
    );
}

#[test]
fn long_sequences_append_and_short_ones_decode() {
    let m = model();
    let mut rows: Vec<Row> = (0..40).map(|i| row(1, 7, i)).collect();
    rows.push(row(3, 9, 0));
    let p = m.plan(rows, vec![39, 40]).unwrap();
    assert_eq!(p.sequences, [1, 0, 40, 0, 3, 40, 1, 2]);
    assert_eq!(p.ssd_tiles, [1, 0, 32, 0, 1, 32, 8, 0]);
    assert_eq!(p.attention_tiles, [0, 32, 32, 8]);
    assert_eq!(p.decodes, [40]);
    assert_eq!(p.longest, 40);
    assert_eq!(m.read_back(&p), (m.scratch.logits, 2 * VOCAB));
    let mut routes = vec![0; 41];
    for tile in p.attention_tiles.chunks(2) {
        for r in tile[0]..tile[0] + tile[1] {
            routes[r as usize] += 1;
        }
    }
    for r in &p.decodes {
        routes[*r as usize] += 1;
    }
    assert_eq!(routes, [1; 41]);
    let t = p.shape();
    assert_eq!((t.rows, t.outputs, t.sequences, t.decodes), (41, 2, 2, 1));
    let cmd = m.execute(t);
    assert!(matches!(&cmd.ops[0], Op::Kernel { kernel, .. } if kernel.contains("embed")));
    let u = m.uploads(&p);
    assert_eq!(u.ids.len(), 41);
    assert_eq!(u.outputs, [39, 40]);
    assert_eq!(u.pages.len(), 4 * 256);
    let w = m.writes(&p);
    assert_eq!(w.len(), 8);
    assert_eq!((w[0].buffer, w[0].words.len()), (m.scratch.ids, 41));
    assert_eq!((w[3].buffer, &w[3].words), (m.scratch.output_rows, &vec![39, 40]));
    assert_eq!((w[7].buffer, &w[7].words), (m.scratch.decode_rows, &vec![40]));
}

#[test]
fn finished_ticks_extend_histories() {
    let mut m = model();
    let p = m.plan(vec![row(0, 5, 0), row(0, 6, 1), row(2, 8, 0)], vec![1]).unwrap();
    assert_eq!(m.fresh_slots(&p.rows), [0, 2]);
    assert_eq!(m.finish(&p, vec![0; 4]), Ok(vec![0; 4]));
    assert_eq!(m.slots[0].history, [5, 6]);
    assert_eq!(m.slots[2].history, [8]);
    let p = m.plan(vec![row(0, 7, 2)], vec![0]).unwrap();
    assert!(m.fresh_slots(&p.rows).is_empty());
    let nan = f32::NAN.to_bits();
    assert_eq!(m.finish(&p, vec![nan]).err(), Some(MetalError::Model(Fault::Nonfinite)));
    assert_eq!(m.slots[0].history, [5, 6, 7]);
}

#[test]
fn pages_come_from_the_prefix_when_the_pool_is_full() {
    let mut m = model();
    m.prefix.blocks = vec![4, 5];
    let rows = vec![row(1, 3, 0)];
    assert!(matches!(
        m.reserve_pages(&rows, 0, PageEvent::Ready),
        PageAction::Grow { slot: 1, position: 0 }
    ));
    assert!(matches!(m.reserve_pages(&rows, 0, PageEvent::Full), PageAction::Release(l) if l == [4, 5]));
    assert!(matches!(
        m.reserve_pages(&rows, 0, PageEvent::StillFull),
        PageAction::Refused(MetalError::Memory(Fault::Pages))
    ));
    assert!(matches!(m.reserve_pages(&rows, 1, PageEvent::Ready), PageAction::Done));
    m.add_page(1, 9);
    assert_eq!(m.slots[1].blocks, [9]);
    assert_eq!(m.clear_slot(1), [9]);
    assert!(m.slots[1].blocks.is_empty());
}

#[test]
fn prompts_reuse_only_the_published_prefix() {
    let mut m = model();
    let tokens: Vec<u32> = (1..=40).collect();
    assert_eq!(refused(m.prepare(0, &vec![])), Fault::Prompt);
    assert_eq!(refused(m.prepare(9, &tokens)), Fault::Prompt);
    assert_eq!(refused(m.prepare(0, &vec![VOCAB as u32])), Fault::Prompt);
    assert_eq!(m.prepare(0, &tokens).unwrap().0, 0);
    m.slots[0].history = tokens[..32].to_vec();
    m.slots[0].blocks = vec![1, 2];
    assert!(m.publish_state(0).is_some());
    assert!(m.publish(0).is_empty());
    assert_eq!(m.prefix.history, tokens[..32]);
    assert_eq!(m.prepare(1, &tokens).unwrap().0, 32);
    let (reused, freed) = m.adopt(1, &tokens);
    assert_eq!((reused, freed), (32, vec![]));
    assert_eq!(m.slots[1].blocks, [1, 2]);
    let mut other = tokens.clone();
    other[3] = 99;
    assert_eq!(m.prepare(1, &other).unwrap().0, 0);
}

#[test]
fn prompts_share_ticks_with_decodes() {
    let mut m = model();
    m.slots[2].history = vec![5];
    m.prefill_begin(0, (0..20).collect(), 0).unwrap();
    m.prefill_begin(1, (0..4).collect(), 0).unwrap();
    assert_eq!(refused(m.prefill_begin(0, vec![1], 0)), Fault::Unfinished);
    assert!(m.has_pending(0) && !m.has_pending(2));
    assert_eq!(m.demands(), [(20, 20), (4, 4)]);
    assert_eq!(m.granted_slots(&vec![0, 4]), [1]);
    let got = m.mixed(vec![row(2, 6, 1)], &vec![8, 4]).unwrap();
    assert_eq!(got.rows.len(), 13);
    assert_eq!(got.complete.len(), 1);
    assert_eq!(got.complete[0].0, 1);
    assert_eq!(got.outputs, [0, 12]);
    m.advance(&vec![8, 4]);
    assert_eq!(m.demands(), [(12, 20)]);
    assert_eq!(refused(m.mixed(vec![row(0, 6, 1)], &vec![8])), Fault::Decodes);
    assert_eq!(m.prefill_abort(0), Some(vec![]));
    assert!(m.demands().is_empty());
    assert_eq!(m.prefill_abort(99), None);
}

#[test]
fn batches_skip_idle_lanes() {
    let m = model();
    let rows = m.batch_rows(&vec![7, 8, 9], &vec![3, 0, 4]).unwrap();
    assert_eq!(rows, [row(0, 7, 3), row(2, 9, 4)]);
    assert_eq!(refused(m.batch_rows(&vec![7], &vec![])), Fault::Batch);
    assert_eq!(refused(m.batch_rows(&vec![7; 5], &vec![0; 5])), Fault::Batch);
    let logits: Vec<u32> = (0..2 * VOCAB as u32).collect();
    let spread = m.batch_logits(&vec![3, 0, 4], &logits);
    assert_eq!(spread.len(), 3 * VOCAB);
    assert_eq!((spread[5], spread[VOCAB + 5]), (5, 0));
    assert_eq!(spread[2 * VOCAB + 1], VOCAB as u32 + 1);
}

#[test]
fn logits_split_at_the_decodes() {
    let logits: Vec<u32> = (0..3 * VOCAB as u32).collect();
    let (decodes, prompts) = split_logits(&logits, 1, &vec![(4, 0, 17), (2, 0, 3)]);
    assert_eq!(decodes.len(), VOCAB);
    assert_eq!(prompts.len(), 2);
    assert_eq!((prompts[1].0, prompts[1].1[0], prompts[1].2), (2, 2 * VOCAB as u32, 3));
}

#[test]
fn idle_slots_are_released() {
    let mut m = model();
    for i in 0..4 {
        m.slots[i].blocks = vec![i as u32];
        m.slots[i].history = vec![1];
    }
    m.prefill_begin(3, vec![1, 2], 0).unwrap();
    assert_eq!(m.release_inactive_slots(&vec![true, false, false, false]), [vec![1], vec![2]]);
    assert_eq!(m.slots[0].history, [1]);
    assert_eq!(m.reset().len(), 4);
    assert!(m.pending.is_empty());
}

#[test]
fn the_engine_is_told_its_sizes() {
    let mut m = model();
    assert_eq!((m.vocab(), m.max_context()), (131072, 4096));
    assert_eq!((m.enable_batch(2), m.enable_batch(99)), (2, 4));
    assert_eq!((m.weights_mem_bytes(), m.kv_mem_bytes()), (m.weight_bytes, m.cache_bytes));
    m.slots[1].reused = 7;
    assert_eq!((m.take_prefill_reused(1), m.take_prefill_reused(1)), (7, 0));
}

#[test]
fn emptied_sequences_start_from_a_fresh_state() {
    let mut m = model();
    m.slots[1].history = vec![7; 16];
    let rows = vec![row(0, 5, 0), row(1, 5, 16)];
    assert_eq!(m.fresh_slots(&rows), [0]);
    m.prefill_abort(1);
    assert_eq!(m.fresh_slots(&rows), [0, 1]);
    let mut cmd = paddock_metal::program::Program::new();
    m.copy_state(&mut cmd, 1, None);
    let planes = m.layers.iter().filter(|l| matches!(l.mixer, Mixer::Mamba(_))).count();
    assert_eq!(cmd.ops.len(), 2 * planes);
}
