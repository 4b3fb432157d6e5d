use paddock_metal::error::{Fault, MetalError};
use paddock_metal::header::{Entry, Field, Header, Tensor};
use paddock_metal::paddleocr::graph::Layout;
use paddock_metal::paddleocr::load::{self, PaddleOcr};
use paddock_metal::paddleocr::multimodal::{lay, pixel_limits, Chunk};
use paddock_metal::paddleocr::tower::{self, Vision};
use paddock_metal::paddleocr::vision::{count_patches, Input};
use paddock_metal::paddleocr::waves::{Outcome, TowerAction, TowerEvent};
use paddock_metal::program::Buffer;

fn field(key: &str) -> Field {
    Field {
        key: key.into(),
        unsigned: None,
        single: None,
        flag: None,
        list: None,
        reals: None,
        text: None,
    }
}

fn number(key: &str, n: u64) -> Field {
    Field { unsigned: Some(n), ..field(key) }
}

fn single(key: &str, x: f32) -> Field {
    Field { single: Some(x.to_bits()), ..field(key) }
}

fn tensors(list: &[Entry]) -> Vec<Tensor> {
    list.iter()
        .map(|e| {
            let n: u64 = e.dims.iter().product();
            let bytes = if e.ty == 30 { n * 2 } else { n * 4 };
            Tensor {
                name: e.name.clone(),
                dims: e.dims.clone(),
                ty: e.ty,
                bytes,
                format_bytes: Some(bytes),
            }
        })
        .collect()
}

fn decoder() -> Header {
    Header {
        architecture: Some("paddleocr".into()),
        fields: vec![
            number("embedding_length", 1024),
            number("block_count", 18),
            number("attention.head_count", 16),
            number("attention.head_count_kv", 2),
            number("attention.key_length", 128),
            number("attention.value_length", 128),
            number("feed_forward_length", 3072),
            number("context_length", 131072),
            single("attention.layer_norm_rms_epsilon", 1e-5),
            single("rope.freq_base", 500000.),
            Field {
                list: Some(vec![Some(16), Some(24), Some(24), Some(0)]),
                ..field("rope.dimension_sections")
            },
        ],
        tensors: tensors(&load::build_schema()),
        total: 0,
    }
}

fn companion() -> Header {
    let half = || Some(vec![Some(0.5f32.to_bits()); 3]);
    Header {
        architecture: Some("clip".into()),
        fields: vec![
            Field { text: Some("paddleocr".into()), ..field("clip.projector_type") },
            Field { flag: Some(true), ..field("clip.has_vision_encoder") },
            Field { flag: Some(true), ..field("clip.use_gelu") },
            number("clip.vision.embedding_length", 1152),
            number("clip.vision.feed_forward_length", 4304),
            number("clip.vision.block_count", 27),
            number("clip.vision.attention.head_count", 16),
            number("clip.vision.patch_size", 14),
            number("clip.vision.projection_dim", 1024),
            number("clip.vision.image_min_pixels", 112896),
            number("clip.vision.image_max_pixels", 1003520),
            single("clip.vision.attention.layer_norm_epsilon", 1e-6),
            Field { reals: half(), ..field("clip.vision.image_mean") },
            Field { reals: half(), ..field("clip.vision.image_std") },
        ],
        tensors: tensors(&tower::build_schema()),
        total: 0,
    }
}

const GRANT: u64 = 1 << 40;

fn model() -> PaddleOcr {
    PaddleOcr::load(&decoder(), 4096, 4, GRANT).unwrap()
}

fn seeing() -> PaddleOcr {
    let mut m = model();
    m.attach_vision(&companion(), m.weight_bytes, GRANT, 300).unwrap();
    m
}

fn picture(w: usize, h: usize) -> Chunk {
    Chunk::Image { rgb: vec![0; 3 * w * h], w, h, cells: (0, 0) }
}

fn refused<T>(r: Result<T, MetalError>) -> Fault {
    match r {
        Err(MetalError::Model(f) | MetalError::Memory(f)) => f,
        Ok(_) => panic!("accepted"),
    }
}

#[test]
fn the_elected_checkpoint_loads() {
    let m = model();
    assert_eq!(m.layers.len(), 18);
    assert_eq!(m.slots.len(), 4);
    assert_eq!(m.page_stride, 256);
    let bytes: u64 = decoder().tensors.iter().map(|t| t.bytes).sum();
    assert_eq!(m.weight_bytes, bytes);
    assert_eq!(m.kv_bytes, 256 * 5 * 16 * 256 * 4 * 18);
    let planes: u64 = m.layers.iter().map(|l| l.keys.len + l.values.len).sum();
    assert_eq!(planes, m.kv_bytes);
    assert_eq!((m.embedding.k, m.embedding.n), (1024, 103424));
}

#[test]
fn every_metadata_number_is_required() {
    for i in 0..10 {
        let mut h = decoder();
        h.fields.remove(i);
        assert_eq!(refused(PaddleOcr::load(&h, 4096, 4, GRANT)), Fault::Field { index: i });
    }
    let mut h = decoder();
    h.fields[10].list = Some(vec![Some(16), Some(24), Some(24)]);
    assert_eq!(refused(PaddleOcr::load(&h, 4096, 4, GRANT)), Fault::Scaled);
    let mut h = decoder();
    h.fields.push(field("rope.scaling.type"));
    assert_eq!(refused(PaddleOcr::load(&h, 4096, 4, GRANT)), Fault::Scaled);
    let mut h = decoder();
    h.architecture = Some("clip".into());
    assert_eq!(refused(PaddleOcr::load(&h, 4096, 4, GRANT)), Fault::Architecture);
}

#[test]
fn ranges_tensors_and_grants_are_checked() {
    let h = decoder();
    for (context, batch) in [(0, 4), (32769, 4), (4096, 0), (4096, 17)] {
        assert_eq!(refused(PaddleOcr::load(&h, context, batch, GRANT)), Fault::Range);
    }
    assert_eq!(
        PaddleOcr::load(&h, 4096, 4, 1024).err(),
        Some(MetalError::Memory(Fault::Budget))
    );
    let mut h = decoder();
    h.tensors.pop();
    assert_eq!(refused(PaddleOcr::load(&h, 4096, 4, GRANT)), Fault::Inventory);
    let mut h = decoder();
    h.tensors[7].ty = 0;
    assert_eq!(refused(PaddleOcr::load(&h, 4096, 4, GRANT)), Fault::Tensor { index: 7 });
    let mut h = decoder();
    h.tensors[9].name = "other".into();
    assert_eq!(refused(PaddleOcr::load(&h, 4096, 4, GRANT)), Fault::Tensor { index: 9 });
}

#[test]
fn the_least_grant_is_weights_cache_and_planes() {
    let m = model();
    let planes = 4 * paddock_metal::paddleocr::graph::Scratch::sizes(256, 4).iter().sum::<usize>() as u64;
    let bytes = paddock_metal::paddleocr::graph::Scratch::bytes(256, 4) as u64;
    assert_eq!(planes, bytes);
    let need = m.weight_bytes + m.kv_bytes + planes;
    assert!(PaddleOcr::load(&decoder(), 4096, 4, need).is_ok());
    assert!(PaddleOcr::load(&decoder(), 4096, 4, need - 1).is_err());
}

#[test]
fn a_companion_attaches_once_and_first() {
    let mut m = seeing();
    assert_eq!(m.vision.as_ref().unwrap().blocks.len(), 27);
    let w = m.weight_bytes;
    assert_eq!(refused(m.attach_vision(&companion(), w, GRANT, 300)), Fault::Attached);
    let mut m = model();
    m.slots[2].history.push(1);
    assert_eq!(refused(m.attach_vision(&companion(), w, GRANT, 300)), Fault::Attached);
    for i in 0..3 {
        let mut h = companion();
        h.fields.remove(i);
        assert_eq!(refused(Vision::load(&h, 0, GRANT, 0)), Fault::Companion);
    }
    for i in 0..11 {
        let mut h = companion();
        h.fields.remove(3 + i);
        assert_eq!(refused(Vision::load(&h, 0, GRANT, 0)), Fault::Field { index: i });
    }
    let bytes: u64 = companion().tensors.iter().map(|t| t.bytes).sum();
    let need = bytes + Vision::workspace_bound();
    assert!(Vision::load(&companion(), 0, need, 0).is_ok());
    assert!(Vision::load(&companion(), 1, need, 0).is_err());
}

#[test]
fn images_become_cells_between_text() {
    // 350 pixels round to 336: twelve cells each way.
    let chunks = vec![Chunk::Text(vec![5, 6]), picture(350, 350), Chunk::Text(vec![7])];
    let (r, images) = lay(1, chunks, 4096).unwrap();
    assert_eq!(r.ids.len(), 2 + 144 + 1);
    assert_eq!(r.ids[2], 100295);
    assert_eq!(r.spans, [(0, 2, 144)]);
    assert_eq!((images[0].tw, images[0].th), (336, 336));
    assert_eq!(r.positions[1], [1, 1, 1, 0]);
    // The image's rows share one step; the text behind it follows its side.
    assert_eq!(r.positions[2][0], 2);
    assert_eq!(r.positions[2 + 13], [2, 3, 3, 0]);
    assert_eq!(r.positions[146][0], 14);
    assert_eq!(r.next, 15);
    assert_eq!(count_patches(&images), Some(576));
}

#[test]
fn prompts_are_refused_by_their_parts() {
    let m = seeing();
    let fault = |chunks| refused(m.plan(0, chunks));
    assert_eq!(fault(vec![Chunk::Text(vec![103424])]), Fault::PromptText);
    assert_eq!(fault(vec![Chunk::Text(vec![1; 4097])]), Fault::ImageContext);
    assert_eq!(fault(vec![Chunk::Text(vec![1])]), Fault::NoImage);
    assert_eq!(fault(vec![Chunk::Other]), Fault::Unsupported);
    assert_eq!(fault(vec![picture(0, 3)]), Fault::Pixels);
    assert_eq!(
        fault(vec![Chunk::Image { rgb: vec![0; 5], w: 350, h: 350, cells: (0, 0) }]),
        Fault::PixelCount
    );
    assert_eq!(
        fault(vec![Chunk::Text(vec![1; 4000]), picture(350, 350)]),
        Fault::ImageContext
    );
    assert_eq!(refused(m.plan(4, vec![picture(350, 350)])), Fault::Busy);
    assert_eq!(refused(model().plan(0, vec![picture(350, 350)])), Fault::Busy);
    assert_eq!(pixel_limits(&vec![]), (112896, 1003520));
    assert_eq!(
        pixel_limits(&vec![Chunk::Pixels { min: Some(784), max: None }]),
        (784, 1003520)
    );
}

#[test]
fn every_prompt_is_answered_and_seated() {
    let mut m = seeing();
    let items = vec![
        (0, vec![picture(350, 350), Chunk::Text(vec![9])]),
        (7, vec![picture(350, 350)]),
        (1, vec![picture(378, 378)]),
        (0, vec![picture(350, 350)]),
    ];
    let busy = Outcome::Failed(MetalError::Model(Fault::Busy));
    let twice = Outcome::Failed(MetalError::Model(Fault::Duplicate));
    let got = m.admit_images(items);
    assert_eq!(
        got.out,
        [(0, Outcome::Encoding), (7, busy), (1, Outcome::Encoding), (0, twice)]
    );
    assert_eq!(m.encoding.len(), 1);
    assert!(m.is_encoding(1) && !m.is_encoding(2));
    assert_eq!(m.tower_action(), TowerAction::Start);
    let started = m.vision.as_ref().unwrap().start(&m.encoding[0].images, 1000).unwrap();
    assert_eq!(started.job.rows, 576 + 784);
    assert_eq!(m.encode_images(TowerEvent::Started(started.job)), []);
    for layer in 0..27 {
        assert_eq!(m.tower_action(), TowerAction::Step);
        let job = m.encoding[0].job.as_ref().unwrap();
        assert_eq!(job.layer, layer);
        let (program, out) = m.vision.as_ref().unwrap().step(job, 2000);
        assert!(!program.ops.is_empty() && out.is_none());
        m.encode_images(TowerEvent::Advanced);
    }
    let (_, out) = m.vision.as_ref().unwrap().step(m.encoding[0].job.as_ref().unwrap(), 2000);
    let out = out.unwrap();
    assert_eq!(out.iter().map(|b| b.len).collect::<Vec<_>>(), [144 * 4096, 196 * 4096]);
    assert_eq!(
        m.encode_images(TowerEvent::Finished(out)),
        [(0, Outcome::Queued), (1, Outcome::Queued)]
    );
    assert_eq!(m.tower_action(), TowerAction::Idle);
    assert!(m.has_pending(0) && m.has_pending(1));
    assert_eq!(m.pending[0].work, 145);
    let mm = m.slots[0].mm.as_ref().unwrap();
    assert_eq!((mm.images[0].offset, mm.images[0].tokens), (0, 144));
    assert_eq!(mm.position(144), [12, 12, 12, 0]);
}

#[test]
fn waves_close_before_they_overfill() {
    let mut m = PaddleOcr::load(&decoder(), 32768, 8, GRANT).unwrap();
    m.attach_vision(&companion(), m.weight_bytes, GRANT, 300).unwrap();
    // 980 pixels square are 4900 patches: three fit, four do not.
    let items = (0..5).map(|i| (i, vec![picture(980, 980)])).collect();
    let got = m.admit_images(items);
    assert!(got.out.iter().all(|(_, o)| *o == Outcome::Encoding));
    let sizes: Vec<usize> = m.encoding.iter().map(|e| e.requests.len()).collect();
    assert_eq!(sizes, [3, 2]);
    for e in &m.encoding {
        assert!(count_patches(&e.images).unwrap() <= tower::MAX_PATCHES);
    }
}

#[test]
fn a_failed_wave_refuses_its_prompts() {
    let mut m = seeing();
    m.admit_images(vec![(0, vec![picture(350, 350)]), (2, vec![picture(350, 350)])]);
    let e = MetalError::Memory(Fault::Budget);
    assert_eq!(
        m.encode_images(TowerEvent::Failed(e)),
        [(0, Outcome::Failed(e)), (2, Outcome::Failed(e))]
    );
    assert_eq!(m.tower_action(), TowerAction::Idle);
    assert!(!m.is_encoding(0));
}

#[test]
fn an_aborted_prompt_leaves_its_wave() {
    let mut m = seeing();
    m.admit_images(vec![(0, vec![picture(350, 350)]), (2, vec![picture(350, 350)])]);
    m.encoding[0].abort(0);
    assert!(!m.is_encoding(0) && m.is_encoding(2));
    m.encoding[0].abort(2);
    assert!(m.encoding[0].empty());
}

#[test]
fn the_tower_starts_with_one_resample_per_image() {
    let m = seeing();
    let images = vec![
        Input { rgb: vec![0; 3 * 350 * 350], w: 350, h: 350, tw: 336, th: 336 },
        Input { rgb: vec![0; 3 * 28 * 56], w: 28, h: 56, tw: 28, th: 56 },
    ];
    let s = m.vision.as_ref().unwrap().start(&images, 500).unwrap();
    assert_eq!(s.resamples.len(), 2);
    assert_eq!(s.job.sizes, [576, 8]);
    assert_eq!(s.places.len(), 2 * 584);
    assert_eq!(s.job.layer, 0);
    // Patches of one cell stand together.
    assert_eq!(s.places[..8], [0, 0, 1, 0, 0, 1, 1, 1]);
}

#[test]
fn text_prompts_reuse_shared_pages() {
    let mut m = model();
    let tokens: Vec<u32> = (0..40).collect();
    assert_eq!(refused(m.check_prompt(9, &tokens)), Fault::Prompt);
    assert_eq!(refused(m.check_prompt(0, &vec![])), Fault::Prompt);
    assert_eq!(refused(m.check_prompt(0, &vec![103424])), Fault::Prompt);
    assert_eq!(m.check_prompt(0, &tokens), Ok(()));
    m.slots[0].blocks = vec![3];
    m.slots[0].history = vec![1];
    let (reused, freed) = m.prepare(0, &tokens, &vec![8, 9]).unwrap();
    assert_eq!((reused, freed), (32, vec![3]));
    assert_eq!(m.slots[0].blocks, [8, 9]);
    assert_eq!(m.slots[0].history, tokens[..32]);
    let (history, blocks) = m.publish(0).unwrap();
    assert_eq!((blocks, history), (vec![8, 9], tokens[..32].to_vec()));
    assert_eq!(m.blank_slot(0), [8, 9]);
    assert_eq!(m.publish(0), Some((vec![], vec![])));
    m.slots[0].mm = Some(Layout { positions: vec![], next: 0, images: vec![] });
    assert_eq!(m.publish(0), None);
}

#[test]
fn scratch_planes_are_numbered_in_order() {
    let m = model();
    let s = &m.scratch;
    assert_eq!(s.ids, Buffer { id: 201, len: s.ids.len });
    assert_eq!(s.logits.id, 201 + 17);
}
