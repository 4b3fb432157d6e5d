use paddock_metal::error::{Fault, MetalError};
use paddock_metal::header::{Field, Header, Tensor};
use paddock_metal::offload::{Configured, FileVersion, KvOffloadConfig};
use paddock_metal::program::{Buffer, Op, Program};
use paddock_metal::qwen35::cold::{ColdTier, Flight, Room};
use paddock_metal::qwen35::elect::elect;
use paddock_metal::qwen35::encode::Action;
use paddock_metal::qwen35::geometry::Geometry;
use paddock_metal::qwen35::graph::{Lanes, Mixer, Verify};
use paddock_metal::qwen35::layout::{layout, Chunk};
use paddock_metal::qwen35::load::{Loaded, Machine};
use paddock_metal::qwen35::publish::Reserve;
use paddock_metal::qwen35::schema::build_schema;
use paddock_metal::qwen35::seat::Companion;
use paddock_metal::qwen35::source::{Source, Store};
use paddock_metal::qwen35::state::Qwen35;
use paddock_metal::qwen35::waves::{Images, Outcome};
use paddock_metal::rows::Row;
use paddock_metal::tiering::Loading;

const VOCAB: usize = 1000;

fn field(key: &str) -> Field {
    Field {
        key: key.into(),
        unsigned: None,
        single: None,
        flag: None,
        list: None,
        reals: None,
        text: None,
    }
}

fn number(key: &str, n: u64) -> Field {
    Field { unsigned: Some(n), ..field(key) }
}

fn header(g: Geometry) -> Header {
    let moe = g.moe();
    let mut h = Header {
        architecture: Some(if moe { "qwen35moe" } else { "qwen35" }.into()),
        fields: vec![
            number("embedding_length", g.width as u64),
            number(
                if moe { "expert_shared_feed_forward_length" } else { "feed_forward_length" },
                g.ff as u64,
            ),
            number("block_count", g.layers as u64),
            number("context_length", 65536),
            number("rope.dimension_count", 64),
            Field { single: Some(1e-6f32.to_bits()), ..field("attention.layer_norm_rms_epsilon") },
            Field { single: Some(1e7f32.to_bits()), ..field("rope.freq_base") },
            number("attention.head_count", g.heads as u64),
            number("attention.head_count_kv", g.kv_heads as u64),
            number("ssm.time_step_rank", g.value_heads as u64),
            number("attention.key_length", 256),
            number("attention.value_length", 256),
            number("full_attention_interval", 4),
            number("ssm.state_size", 128),
            number("ssm.group_count", 16),
            number("ssm.conv_kernel", 4),
            Field {
                list: Some(vec![Some(11), Some(11), Some(10), Some(0)]),
                ..field("rope.dimension_sections")
            },
            number("expert_count", 256),
            number("expert_used_count", 8),
            number("expert_feed_forward_length", 512),
        ],
        tensors: vec![],
        total: 0,
    };
    h.tensors = build_schema(&h, true, g, VOCAB)
        .iter()
        .map(|e| {
            let bytes = 4 * e.dims.iter().product::<u64>();
            let ty = if e.ty == u32::MAX { 0 } else { e.ty };
            let ty = if e.name.ends_with("_exps.weight") { 8 } else { ty };
            Tensor { name: e.name.clone(), dims: e.dims.clone(), ty, bytes, format_bytes: Some(bytes) }
        })
        .collect();
    h.total = h.tensors.iter().map(|t| t.bytes).sum();
    h
}

fn machine() -> Machine {
    Machine {
        budget: 1 << 44,
        accelerated: true,
        lanes: Lanes { affine4: 0x104, long_decode: 1024, decode_parts: 8 },
        packed_workspace: 0,
        packed_attention: 0,
    }
}

fn source(g: Geometry) -> Source<'static> {
    Source { header: header(g), names: vec![], store: Store::Mapped { rotated: Some(false) } }
}

fn load(src: &Source, context: usize, batch: usize) -> Result<Loaded, MetalError> {
    Qwen35::load(src, context, batch, machine(), &Configured { value: None })
}

fn model() -> Qwen35 {
    load(&source(Geometry::dense_9b()), 4096, 4).unwrap().model
}

fn refused<T>(r: Result<T, MetalError>) -> Fault {
    match r {
        Err(MetalError::Model(f) | MetalError::Memory(f)) => f,
        Ok(_) => panic!("accepted"),
    }
}

fn rows(slot: usize, tokens: &[u32], from: u32) -> Vec<Row> {
    tokens
        .iter()
        .enumerate()
        .map(|(i, t)| Row { slot, token: *t, position: from + i as u32 })
        .collect()
}

#[test]
fn the_three_shapes_load() {
    for g in [Geometry::dense_9b(), Geometry::dense_27b(), Geometry::moe_35b()] {
        let src = source(g);
        let out = load(&src, 4096, 2).unwrap();
        let m = &out.model;
        assert_eq!((m.slots.len(), m.cache.len(), m.graph.state_slots), (2, 4, 6));
        assert_eq!(m.graph.layers.len(), g.layers);
        assert_eq!(out.blocks, 256 * 6);
        assert_eq!(out.weight_bytes, src.header.tensors.iter().map(|t| t.bytes as u128).sum());
        let full = m.graph.layers.iter().filter(|l| matches!(l.mixer, Mixer::Full(_))).count();
        assert_eq!(full, g.full_layers());
        assert_eq!(m.graph.moe_scratch.is_some(), g.moe());
        let per_layer = 256 * 6 * 16 * g.kv_heads as u64 * 256 * 2;
        assert_eq!(out.kv_bytes, per_layer * 2 * full as u64 + m.graph.state.len + m.graph.conv.len);
    }
}

#[test]
fn a_tier_trades_saved_pages_for_headroom() {
    let src = source(Geometry::dense_9b());
    let tiered = Qwen35::load_for_offload(&src, 4096, 2, machine()).unwrap();
    assert_eq!(tiered.blocks, 256 * 3 + 4);
    let on = Configured {
        value: Some(Some(KvOffloadConfig { ram_bytes: 1, disk: None, scope: vec![] })),
    };
    assert_eq!(Qwen35::load(&src, 4096, 2, machine(), &on).unwrap().blocks, tiered.blocks);
}

#[test]
fn metadata_is_elected_in_order() {
    let h = header(Geometry::dense_9b());
    let n = elect(&h, 4096, 4).unwrap();
    assert_eq!((n.vocab, n.rotary, n.trained), (VOCAB, 64, 65536));
    let without = |i: usize| {
        let mut h = header(Geometry::dense_9b());
        h.fields.remove(i);
        refused(elect(&h, 4096, 4))
    };
    for (i, index) in [0, 1, 3, 4, 5, 6, 7, 8, 9, 10, 11, 12, 13, 14, 15, 16].into_iter().enumerate() {
        assert_eq!(without(i), Fault::Field { index });
    }
    assert_eq!(without(16), Fault::Geometry);
    let mut h = header(Geometry::dense_9b());
    h.fields.push(number("nextn_predict_layers", 2));
    assert_eq!(refused(elect(&h, 4096, 4)), Fault::Field { index: 2 });
    let mut h = header(Geometry::dense_9b());
    h.fields.push(field("rope.scaling.type"));
    assert_eq!(refused(elect(&h, 4096, 4)), Fault::Scaled);
    let mut h = header(Geometry::dense_9b());
    h.tensors.remove(0);
    assert_eq!(refused(elect(&h, 4096, 4)), Fault::Vocabulary);
    let mut h = header(Geometry::dense_9b());
    h.architecture = Some("qwen3".into());
    assert_eq!(refused(elect(&h, 4096, 4)), Fault::Architecture);
    let mut h = header(Geometry::moe_35b());
    h.fields[17].unsigned = Some(128);
    assert_eq!(refused(elect(&h, 4096, 4)), Fault::Field { index: 20 });
}

#[test]
fn stores_ranges_and_grants_are_checked() {
    let mut src = source(Geometry::dense_9b());
    for (context, batch) in [(0, 4), (65537, 4), (4096, 0), (4096, 513)] {
        assert_eq!(refused(load(&src, context, batch)), Fault::Range);
    }
    let tight = Machine { budget: 1 << 20, ..machine() };
    assert_eq!(
        Qwen35::load_for_offload(&src, 4096, 4, tight).err(),
        Some(MetalError::Memory(Fault::Budget))
    );
    src.store = Store::Mapped { rotated: None };
    assert_eq!(refused(load(&src, 4096, 4)), Fault::Rotation);
    src.store = Store::Mapped { rotated: Some(true) };
    assert_eq!(refused(load(&src, 4096, 5)), Fault::Range);
    assert!(load(&src, 4096, 4).unwrap().model.graph.ternary);
    src.header.tensors[5].dims.push(2);
    assert_eq!(refused(load(&src, 4096, 4)), Fault::Tensor { index: 5 });
    assert_eq!(refused(load(&source(Geometry::moe_35b()), 32769, 4)), Fault::Range);
}

#[test]
fn prompts_are_prepared_planned_and_published() {
    let mut m = model();
    let tokens: Vec<u32> = (0..100).collect();
    assert_eq!(refused(m.prepare(9, &tokens)), Fault::Prompt);
    assert_eq!(refused(m.prepare(0, &vec![1000])), Fault::Prompt);
    let p = m.prepare(0, &tokens).unwrap();
    assert!(p.freed.is_empty());
    let matched = m.match_prefix(0, &tokens);
    assert_eq!(matched, None);
    assert_eq!(m.adopt(0, matched), 0);
    let list = rows(0, &tokens, 0);
    assert!(matches!(m.reserve_pages(&list, 0, false), Reserve::Grow { slot: 0, position: 0 }));
    assert!(matches!(m.reserve_pages(&list, 100, false), Reserve::Done));
    assert!(matches!(
        m.reserve_pages(&list, 3, true),
        Reserve::Refused(MetalError::Memory(Fault::Pages))
    ));
    m.slots[0].blocks = (10..17).collect();
    let (plan, released) = m.plan_execution(list, vec![99]).unwrap();
    assert_eq!(plan.rows.len(), 100);
    assert_eq!(plan.selected, [99]);
    assert_eq!(plan.spans[..2], [0, 100]);
    assert_eq!(released.len(), plan.checkpoints.len());
    assert!(!plan.checkpoints.is_empty());
    let u = m.uploads(&plan);
    assert_eq!((u.ids.len(), u.outputs.clone()), (100, vec![99]));
    assert_eq!(u.pages[..8], [10, 11, 12, 13, 14, 15, 16, 0]);
    assert_eq!(u.mrope[4..8], [1, 1, 1, 1]);
    let w = m.writes(&plan);
    let s = &m.graph.scratch;
    assert_eq!(w.len(), 14);
    assert_eq!((w[0].buffer, &w[0].words), (s.ids, &tokens));
    assert_eq!((w[3].buffer, &w[3].words), (s.pages, &u.pages));
    assert_eq!((w[4].buffer, &w[4].words), (s.spans, &plan.spans));
    assert_eq!((w[7].buffer, &w[7].words), (s.attn_tiles, &plan.tiles));
    assert_eq!((w[13].buffer, &w[13].words), (s.limits, &u.limits));
    let t = m.tick(&plan, &vec![0; 100], &vec![false; 32]);
    let cmd = m.graph.execute_plan(&t);
    assert!(matches!(cmd.ops[0], Op::Kernel { .. } | Op::Planes { .. }));
    m.publish(&plan);
    assert_eq!(m.slots[0].history, tokens);
    // Entries stay out of reach until their plan lets go of them.
    let mut longer = tokens.clone();
    longer.extend([7, 8, 9]);
    m.prepare(1, &longer).unwrap();
    assert_eq!(m.match_prefix(1, &longer), None);
    m.unreserve_plan(&plan);
    let lasting = m.lasting_entries(&plan);
    assert_eq!(lasting.len(), 1);
    assert_eq!(m.cache[lasting[0]].history, tokens[..96]);
    assert_eq!(m.spill_resident(lasting[0]).unwrap().links.len(), 6);
    // What was saved is found again by a longer prompt, and only by one that
    // continues it.
    let matched = m.match_prefix(1, &longer).unwrap();
    assert_eq!(m.adopt(1, Some(matched)), 96);
    assert_eq!(m.slots[1].history, longer[..96]);
    assert_eq!(m.slots[1].blocks, [10, 11, 12, 13, 14, 15]);
    let other: Vec<u32> = (500..600).collect();
    m.prepare(2, &other).unwrap();
    assert_eq!(m.match_prefix(2, &other), None);
}

#[test]
fn ticks_are_checked_before_they_are_planned() {
    let mut m = model();
    let fault = |m: &mut Qwen35, list: Vec<Row>, out: Vec<usize>| {
        let r = m.check_rows(&list, &out);
        let f = refused(m.plan_execution(list, out));
        assert_eq!(r, Err(MetalError::Model(f)));
        f
    };
    assert_eq!(fault(&mut m, vec![], vec![]), Fault::Selection);
    assert_eq!(fault(&mut m, rows(0, &[1], 0), vec![1]), Fault::Selection);
    assert_eq!(
        fault(&mut m, rows(4, &[1], 0), vec![0]),
        Fault::Row { slot: 4, token: 1, position: 0 }
    );
    assert_eq!(
        fault(&mut m, rows(0, &[1], 2), vec![0]),
        Fault::Row { slot: 0, token: 1, position: 2 }
    );
    let mut twice = rows(0, &[1], 0);
    twice.extend(rows(1, &[1], 0));
    twice.extend(rows(0, &[2], 1));
    assert_eq!(fault(&mut m, twice, vec![0]), Fault::Revisited);
}

#[test]
fn a_dropped_plan_frees_its_entries() {
    let mut m = model();
    let tokens: Vec<u32> = (0..64).collect();
    m.prepare(0, &tokens).unwrap();
    m.match_prefix(0, &tokens);
    m.slots[0].blocks = vec![1, 2, 3, 4];
    let (plan, _) = m.plan_execution(rows(0, &tokens, 0), vec![63]).unwrap();
    assert!(m.cache.iter().any(|c| c.reserved));
    m.unreserve_plan(&plan);
    assert!(m.cache.iter().all(|c| !c.reserved));
    assert!(m.evict_checkpoint().is_none());
}

fn picture(side: usize, seed: u8) -> Chunk {
    Chunk::Image {
        rgb: vec![seed; 3 * side * side],
        w: side,
        h: side,
        hash: seed as u64,
        size: Some((side, side)),
    }
}

#[test]
fn layouts_place_text_and_images() {
    let l = layout(vec![Chunk::Text(vec![5, 6]), picture(128, 1), Chunk::Text(vec![7])], VOCAB, 4096).unwrap();
    assert_eq!(l.ids.len(), 2 + 16 + 1);
    assert_eq!(l.positions[1], [1, 1, 1, 1]);
    assert_eq!(l.positions[2 + 5], [2, 3, 3, 0]);
    assert_eq!(l.positions[18], [6, 6, 6, 6]);
    assert_eq!(l.limits, (0..19).collect::<Vec<u32>>());
    assert_eq!(l.keys[0].digest, *blake3::hash(&[1; 3 * 128 * 128]).as_bytes());
    let fault = |chunks| refused(layout(chunks, VOCAB, 64));
    assert_eq!(fault(vec![Chunk::Text(vec![1000])]), Fault::PromptText);
    assert_eq!(fault(vec![Chunk::Text(vec![1; 65])]), Fault::PromptText);
    assert_eq!(fault(vec![Chunk::Text(vec![1])]), Fault::NoImage);
    assert_eq!(fault(vec![Chunk::Other]), Fault::Unsupported);
    assert_eq!(fault(vec![picture(512, 1)]), Fault::ImageContext);
    let odd = |rgb, size| Chunk::Image { rgb, w: 32, h: 32, hash: 0, size };
    assert_eq!(fault(vec![odd(vec![0; 3072], None)]), Fault::ImageSize);
    assert_eq!(fault(vec![odd(vec![0; 3071], Some((32, 32)))]), Fault::PixelCount);
}

fn seeing() -> (Qwen35, Images) {
    let m = model();
    let mut images = Images::new();
    let c = Companion { directory: false, manifest: false, rotation: false };
    m.attach_vision(&mut images, c, false).unwrap();
    (m, images)
}

#[test]
fn a_tower_attaches_once_and_first() {
    let (m, mut images) = seeing();
    let c = || Companion { directory: false, manifest: false, rotation: false };
    assert_eq!(refused(m.attach_vision(&mut images, c(), false)), Fault::Attached);
    let mut images = Images::new();
    assert_eq!(refused(m.attach_vision(&mut images, c(), true)), Fault::Attached);
    let mut m = model();
    m.graph.mlx = true;
    assert_eq!(refused(m.attach_vision(&mut images, c(), false)), Fault::Companion);
    let mut m = model();
    m.uncommitted = true;
    assert_eq!(refused(m.attach_vision(&mut images, c(), false)), Fault::Uncommitted);
}

#[test]
fn image_prompts_pass_through_the_tower() {
    let (mut m, mut images) = seeing();
    let ask = |slot, seed| (slot, vec![picture(128, seed), Chunk::Text(vec![3, 4])]);
    let out = m.admit_images(&mut images, vec![ask(0, 1), ask(9, 2), ask(1, 1), ask(0, 3)]);
    let busy = Outcome::Failed(MetalError::Model(Fault::Busy));
    assert_eq!(out, [(0, Outcome::Encoding), (9, busy), (1, Outcome::Encoding), (0, busy)]);
    // Both prompts show the same picture: it is encoded once.
    assert_eq!((images.encoding.len(), images.encoding[0].unique.len()), (1, 1));
    assert_eq!(images.next_action(false), Action::Look);
    let mut cmd = Program::new();
    assert_eq!(m.look_up_images(&mut images, &mut cmd, 900), 900);
    assert_eq!(images.next_action(false), Action::Start);
    assert_eq!(images.start_job(&m), [0]);
    assert_eq!(images.next_action(false), Action::Work);
    let made = Buffer { id: 50, len: 16 * 4096 * 4 };
    let (next, more) = m.finish_job(&mut images, &vec![made], &mut cmd, 900);
    assert!(!more && next >= 900);
    assert_eq!(images.cache.len(), 1);
    assert_eq!(images.next_action(false), Action::Seat);
    images.attach_encodings(&m, &mut cmd, next);
    for slot in [0, 1] {
        let v = m.seat_next(&mut images).unwrap();
        assert_eq!((v.slot, v.outcome), (slot, Outcome::Queued));
        assert_eq!(v.seated.unwrap().reused, 0);
    }
    assert!(m.seat_next(&mut images).is_none());
    assert_eq!(images.next_action(false), Action::Idle);
    assert!(m.has_pending(0) && m.has_pending(1));
    assert_eq!(m.live_images().len(), 2);
    assert_eq!(m.rope_position(0, 17), [5, 5, 5, 5]);
    // A third prompt with the picture finds it in the cache.
    m.admit_images(&mut images, vec![ask(2, 1)]);
    m.look_up_images(&mut images, &mut cmd, 950);
    assert_eq!(m.image_cache_reuses(&images), 1);
    assert_eq!(images.next_action(false), Action::Seat);
    images.abort_images(&m, 2);
    assert_eq!(images.next_action(false), Action::Idle);
}

#[test]
fn large_prompts_take_waves_of_their_own() {
    let m = load(&source(Geometry::dense_9b()), 65536, 4).unwrap().model;
    let mut images = Images::new();
    images.attached = true;
    // 2048 pixels square are 16384 patches: four fill a wave.
    let ask = |slot: usize| {
        (slot, vec![picture(2048, 2 * slot as u8), picture(2048, 2 * slot as u8 + 1)])
    };
    let out = m.admit_images(&mut images, (0..4).map(ask).collect());
    assert!(out.iter().all(|(_, o)| *o == Outcome::Encoding));
    let sizes: Vec<usize> = images.encoding.iter().map(|e| e.requests.len()).collect();
    assert_eq!(sizes, [2, 2]);
    let out = m.admit_images(&mut Images::new(), vec![ask(0)]);
    assert_eq!(out, [(0, Outcome::Failed(MetalError::Model(Fault::Companion)))]);
}

#[test]
fn a_failed_tower_refuses_its_wave() {
    let (m, mut images) = seeing();
    m.admit_images(&mut images, vec![(0, vec![picture(64, 1)]), (3, vec![picture(64, 2)])]);
    let e = MetalError::Memory(Fault::Budget);
    assert_eq!(
        images.fail_wave(&m, e),
        [(0, Outcome::Failed(e)), (3, Outcome::Failed(e))]
    );
    assert!(images.encoding.is_empty());
}

fn file(size: u64) -> Vec<FileVersion> {
    vec![FileVersion {
        device: 1,
        inode: 2,
        size,
        modified: 3,
        modified_nanos: 4,
        changed: 5,
        changed_nanos: 6,
    }]
}

fn tier(m: &Qwen35) -> ColdTier {
    m.enable_kv_offload(false, 1 << 40, &file(1), &file(1), &file(1)).unwrap().0
}

#[test]
fn a_tier_is_enabled_on_unchanged_files_only() {
    let mut m = model();
    let (_, largest) = m.enable_kv_offload(false, 1 << 40, &file(1), &file(1), &file(1)).unwrap();
    assert_eq!(largest, m.graph.checkpoint_size(256));
    let fault = |m: &Qwen35, on, ram, now: Vec<FileVersion>| {
        refused(m.enable_kv_offload(on, ram, &file(1), &file(1), &now))
    };
    assert_eq!(fault(&m, true, 1 << 40, file(1)), Fault::Attached);
    assert_eq!(fault(&m, false, 1 << 40, file(2)), Fault::Changed);
    assert_eq!(fault(&m, false, 1, file(1)), Fault::Transfer);
    m.slots[0].history.push(1);
    assert_eq!(fault(&m, false, 1 << 40, file(1)), Fault::Attached);
}

#[test]
fn restored_prefixes_serve_their_prompt() {
    let mut m = model();
    let mut t = tier(&m);
    let tokens: Vec<u32> = (0..100).collect();
    let none = vec![];
    assert_eq!(m.cold_loading(&mut t, &tokens, &none, &vec![false; 4]), Loading::Recompute);
    let kept = vec![true, true, false, false];
    assert_eq!(m.cold_loading(&mut t, &tokens, &none, &kept), Loading::Hit { n: 64 });
    assert_eq!(t.elect(Some((10, true)), false, false, false), Loading::Read);
    assert_eq!(m.cold_read(&mut t, true, false, false), Loading::Wait);
    assert_eq!(m.cold_read(&mut t, false, true, true), Loading::Place);
    let entry = m.reserve_cold().unwrap();
    assert!(matches!(m.make_room(4, 64), Room::Enough));
    assert!(matches!(m.make_room(3, 64), Room::Full));
    m.begin_restore(&mut t, entry.index, &tokens, 64, &none, vec![5, 6, 7, 8], 10, true).unwrap();
    // Nobody is served by it before its bytes have arrived.
    m.prepare(0, &tokens).unwrap();
    assert_eq!(m.match_prefix(0, &tokens), None);
    assert_eq!(m.cold_loading(&mut t, &tokens, &none, &kept), Loading::Wait);
    assert_eq!(t.open_tickets(0), 1);
    assert_eq!(m.pump_cold(&mut t, Flight::Running), None);
    assert_eq!(m.pump_cold(&mut t, Flight::Done { parked: true }), None);
    assert_eq!((t.decisions.resolved_ok, t.decisions.served_from_nvme), (1, 1));
    assert_eq!(m.match_prefix(0, &tokens), Some(entry.index));
    assert_eq!(m.adopt(0, Some(entry.index)), 64);
    assert_eq!(m.slots[0].blocks, [5, 6, 7, 8]);
    let out = m.evict_checkpoint().unwrap();
    let spill = m.spill_checkpoint(&out).unwrap();
    assert_eq!(spill.links.len(), 4);
    assert_eq!(spill.bytes, m.graph.checkpoint_size(4));
    assert_eq!(spill.spans.iter().map(|s| s.len).sum::<u64>(), spill.bytes);
}

#[test]
fn a_failed_restore_returns_its_pages() {
    let mut m = model();
    let mut t = tier(&m);
    let tokens: Vec<u32> = (0..100).collect();
    let none = vec![];
    let i = m.reserve_cold().unwrap().index;
    let back = m.begin_restore(&mut t, i, &tokens, 48, &none, vec![5], 10, false);
    assert_eq!(back, Err(vec![5]));
    m.begin_restore(&mut t, i, &tokens, 48, &none, vec![5, 6, 7], 10, true).unwrap();
    assert!(m.cache[i].reserved);
    assert_eq!(m.pump_cold(&mut t, Flight::Failed), Some(vec![5, 6, 7]));
    assert!(!m.cache[i].reserved && t.restoring.is_none());
    assert_eq!(m.restore_cold(&tokens, &vec![true, false, true, false]), Some(80));
    m.finish_restore(&mut t, i, &tokens, 80, vec![1, 2, 3, 4, 5], 9, false);
    assert_eq!(m.cache[i].history, tokens[..80]);
    assert_eq!(m.restore_cold(&tokens, &vec![true, false, true, false]), None);
}

#[test]
fn checkpoint_layouts_name_their_arithmetic() {
    let mut m = model();
    let a = m.graph.checkpoint_layout("m5");
    assert_ne!(a, m.graph.checkpoint_layout("m4"));
    assert_eq!(a, m.graph.checkpoint_layout("m5"));
    m.graph.geometry = Geometry::dense_27b();
    assert_ne!(a, m.graph.checkpoint_layout("m5"));
    assert!(a.is_ascii());
}

#[test]
fn saved_state_is_pages_and_recurrence() {
    let m = model();
    let g = Geometry::dense_9b();
    let page = 16 * 4 * 256 * 2 * 2 * g.full_layers() as u64;
    assert_eq!(m.graph.checkpoint_size(7) - m.graph.checkpoint_size(6), page);
    let state = (g.linear_layers() * (g.state() * 4 + g.conv() * 12)) as u64;
    assert_eq!(m.graph.checkpoint_size(0), state);
    let spans = m.graph.cold_spans(4, &vec![3, 4]);
    assert_eq!(spans.iter().map(|s| s.len).sum::<u64>(), m.graph.checkpoint_size(2));
}

#[test]
fn ticks_hand_back_the_logits_of_the_lane_that_ran() {
    let mut m = model();
    let vocab = m.graph.vocab;
    assert_eq!(m.graph.read_back(3), Some((m.graph.scratch.logits, 3 * vocab)));
    assert_eq!(m.graph.read_back(0), Some((m.graph.scratch.logits, 0)));
    let buffer = |id| Buffer { id, len: 4096 };
    let verify = Verify {
        rows: 32,
        live: 4,
        conv_input: buffer(900),
        updates: buffer(901),
        logits: buffer(902),
        hidden: buffer(903),
        picks: buffer(904),
    };
    m.graph.spec = Some(verify);
    assert_eq!(m.graph.read_back(2), Some((m.graph.scratch.logits, 2 * vocab)));
    m.graph.verifying = true;
    assert_eq!(m.graph.read_back(2), Some((buffer(902), 2 * vocab)));
    m.graph.greedy_output = true;
    assert_eq!(m.graph.read_back(2), None);
}

#[test]
fn every_row_of_a_tick_takes_one_route() {
    let mut m = model();
    let long: Vec<u32> = (0..75).collect();
    let mut list = rows(0, &long, 0);
    list.extend(rows(2, &[5], 0));
    list.extend(rows(1, &[6, 7, 8], 0));
    for (slot, n) in [(0, 5), (1, 1), (2, 1)] {
        m.slots[slot].blocks = (0..n).collect();
    }
    let (plan, _) = m.plan_execution(list, vec![78]).unwrap();
    let mut routes = vec![0; 79];
    for t in plan.tiles.chunks(2).chain(plan.long_decode_tiles.chunks(2)) {
        for r in t[0]..t[0] + t[1] {
            routes[r as usize] += 1;
        }
    }
    for r in &plan.decode_rows {
        routes[*r as usize] += 1;
    }
    assert_eq!(routes, [1; 79]);
    assert!(!plan.tiles.is_empty() && !plan.decode_rows.is_empty());
}
