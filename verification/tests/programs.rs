use paddock_metal::error::{Fault, MetalError};
use paddock_metal::header::Header;
use paddock_metal::nemotron::load::empty_slot;
use paddock_metal::offload::Configured;
use paddock_metal::program::{Buffer, Op, Plane, Program, Route, RowSpan, Weight};
use paddock_metal::projection::project as project_precise;
use paddock_metal::qwen35::attention::Load;
use paddock_metal::qwen35::checkpoint::{
    small_shape, Dtype, Formats, PackedTensor, Shards, Stored,
};
use paddock_metal::qwen35::encode::copy_image;
use paddock_metal::qwen35::forward::join_roles;
use paddock_metal::qwen35::geometry::Geometry;
use paddock_metal::qwen35::graph::{Lanes, Mixer};
use paddock_metal::qwen35::load::Machine;
use paddock_metal::qwen35::moe::{Experts, Workspace};
use paddock_metal::qwen35::multimodal::{inject_images, inject_mtp_images, SlotImage};
use paddock_metal::qwen35::projection::{pair, project as project_dense};
use paddock_metal::qwen35::schema::build_schema;
use paddock_metal::qwen35::source::{Config, Held, Name, Packed, Source, Store};
use paddock_metal::qwen35::state::{choose_destination, release, Checkpoint, Qwen35};
use paddock_metal::qwen35::ternary::Module;
use paddock_metal::rows::{push_rows, push_tiles, Row};
use paddock_metal::tables::{are_finite, pages_missing, prefill_rows, push_padded};

fn buffer(id: u32) -> Buffer {
    Buffer { id, len: 1 << 20 }
}

fn weight(id: u32, ty: u32, k: usize, n: usize) -> Weight {
    Weight { buffer: buffer(id), ty, k, n }
}

fn plane(id: u32, ty: u32, n: usize) -> Plane {
    Plane { weight: weight(id, ty, 4096, n), out: buffer(100 + id) }
}

fn names(p: &Program) -> Vec<String> {
    p.ops
        .iter()
        .map(|op| match op {
            Op::Kernel { kernel, .. } => kernel.to_string(),
            Op::Planes { route, .. } => format!("{route:?}"),
        })
        .collect()
}

fn grid(op: &Op) -> (usize, usize, usize) {
    match op {
        Op::Kernel { grid, .. } => *grid,
        Op::Planes { .. } => (0, 0, 0),
    }
}

/// A directory of the large dense shape, by the kind of its store.
#[derive(Clone, Copy, PartialEq)]
enum Kind {
    Affine,
    Ternary,
    Packed,
}

const CONFIG: Config = Config { context: 8192, eps: 0x3586_37bd, rope: 0x4b18_9680 };

fn ones(n: usize) -> Vec<u8> {
    (0..n).flat_map(|_| 1f32.to_le_bytes()).collect()
}

fn directory<'a>(kind: Kind, signs: &'a [u8]) -> Source<'a> {
    let header = Header { architecture: None, fields: vec![], tensors: vec![], total: 0 };
    let list = build_schema(&header, false, Geometry::dense_27b(), 248320);
    let mut source = Source { header, names: vec![], store: Store::Mapped { rotated: None } };
    let mut shards = Shards { tensors: vec![] };
    let mut lane = vec![];
    let mut tensors = vec![];
    for e in &list {
        source.names.push(Name {
            plane: e.name.clone(),
            mapped: format!("model.language_model.{}", e.name),
        });
        let stored = source.stored_text(&e.name).unwrap();
        let matrix = e.dims.len() == 2 && !e.name.ends_with("ssm_conv1d.weight");
        let bytes = e.dims.iter().product::<u64>();
        let mut put = |name: String, dtype, shape| {
            shards.tensors.push(Stored { name, dtype, shape, data: &[] });
        };
        if matrix && kind == Kind::Ternary {
            let stem = stored.strip_suffix(".weight").unwrap().to_string();
            put(stored.clone(), Dtype::U32, vec![e.dims[1], e.dims[0] / 16]);
            put(format!("{stem}.scales"), Dtype::F16, vec![e.dims[1], e.dims[0] / 128]);
            put(format!("{stem}.biases"), Dtype::F16, vec![e.dims[1], e.dims[0] / 128]);
        } else if matrix {
            put(stored, Dtype::U32, vec![1]);
        } else {
            let dtype = if kind == Kind::Ternary { Dtype::F32 } else { Dtype::Bf16 };
            put(stored, dtype, small_shape(&e.name, &e.dims));
        }
        lane.push(if matrix { Some(Held { ty: 0x104, bytes }) } else { None });
        tensors.push(Packed {
            name: e.name.clone(),
            tensor: PackedTensor {
                dims: e.dims.clone(),
                affine: matrix,
                half: None,
                tiled: bytes + 1,
                native: bytes,
            },
        });
    }
    let name = "language_model.lm_head.signs".to_string();
    shards.tensors.push(Stored { name, dtype: Dtype::F32, shape: vec![5120], data: signs });
    let module = Module { name: "lm_head".into(), width: 5120, signs: vec![1f32.to_bits(); 5120] };
    source.store = match kind {
        Kind::Affine => Store::Affine { config: CONFIG, shards, lane },
        Kind::Ternary => Store::Ternary { config: CONFIG, shards, modules: vec![module] },
        Kind::Packed => {
            Store::Packed { tensors, formats: Formats { affine4: 0x104, packed4: 0x204 } }
        }
    };
    source
}

fn load(kind: Kind, accelerated: bool) -> Qwen35 {
    let machine = Machine {
        budget: 1 << 44,
        accelerated,
        lanes: Lanes { affine4: 0x104, long_decode: 1024, decode_parts: 8 },
        packed_workspace: 1 << 30,
        packed_attention: 1 << 30,
    };
    let signs = ones(5120);
    let source = directory(kind, &signs);
    Qwen35::load(&source, 4096, 4, machine, &Configured { value: None }).unwrap().model
}

fn tick(m: &mut Qwen35, tokens: u32) -> Program {
    let list: Vec<u32> = (0..tokens).collect();
    m.prepare(0, &list).unwrap();
    m.match_prefix(0, &list);
    m.slots[0].blocks = (0..tokens.div_ceil(16)).collect();
    let rows = list.iter().map(|t| Row { slot: 0, token: *t, position: *t }).collect();
    let (plan, _) = m.plan_execution(rows, vec![tokens as usize - 1]).unwrap();
    let (tiles, long) = (plan.tiles.len() / 2, plan.long_decode_tiles.len() / 2);
    assert!(m.graph.storage_fits(tiles, long));
    let t = m.tick(&plan, &vec![0; tokens as usize], &vec![false; 64]);
    m.graph.execute_plan(&t)
}

#[test]
fn lanes_name_their_own_kernels() {
    for (kind, embed, rms) in [
        (Kind::Affine, "mlx_embed", "mlx_rms"),
        (Kind::Packed, "mlx_embed", "mlx_rms"),
        (Kind::Ternary, "bonsai_embed", "bonsai_rms"),
    ] {
        let mut m = load(kind, true);
        let list = names(&tick(&mut m, 40));
        assert_eq!(list[..2], [embed.to_string(), rms.to_string()]);
        let recurrent = list.iter().filter(|n| n.ends_with("dn_conv")).count();
        assert_eq!(recurrent, m.graph.geometry.linear_layers());
        assert!(m.graph.mlx);
    }
}

#[test]
fn prompt_arithmetic_is_pinned_on_one_shape_and_device() {
    let m = load(Kind::Affine, true);
    assert!(m.graph.stable_affine_prefill() && m.graph.stable_affine_contract());
    assert!(!m.graph.stable_bonsai_prefill());
    assert!(!load(Kind::Affine, false).graph.stable_affine_prefill());
    let t = load(Kind::Ternary, true);
    assert!(t.graph.stable_bonsai_prefill() && !t.graph.stable_affine_prefill());
    assert_eq!(t.graph.bonsai.as_ref().unwrap().signs.len(), 3);
    assert!(!load(Kind::Packed, true).graph.stable_affine_prefill());
}

#[test]
fn precise_projections_follow_format_and_rows() {
    for (ty, rows, name, columns, tile) in [
        (12, 1, "linear_kquant1", 4, 1),
        (13, 4, "linear_kquant4", 16, 4),
        (14, 8, "gemma_full8", 16, 8),
        (12, 9, "laguna_dense_f32", 16, 32),
        (8, 1, "linear_q8_r1", 4, 1),
        (8, 3, "linear_q8_r4", 4, 4),
        (8, 8, "linear_q8_r8", 4, 8),
        (8, 15, "linear_q8_r16", 4, 16),
        (8, 16, "laguna_dense_f32", 16, 32),
    ] {
        let mut cmd = Program::new();
        project_precise(&mut cmd, &vec![plane(1, ty, 1000)], buffer(9), rows);
        assert_eq!(names(&cmd), [name]);
        assert_eq!(grid(&cmd.ops[0]), (1000usize.div_ceil(columns), rows.div_ceil(tile), 1));
    }
}

#[test]
fn shared_loads_are_elected_where_they_pay() {
    let elect = |planes: Vec<Plane>, m| {
        let mut cmd = Program::new();
        project_dense(&mut cmd, 0x104, planes, buffer(9), m, buffer(10));
        names(&cmd).remove(0)
    };
    let two = |ty| vec![plane(1, ty, 1024), plane(2, ty, 1024)];
    assert_eq!(elect(two(23), 1), "qwen_multi_pair1");
    assert_eq!(elect(two(12), 1), format!("{:?}", Route::Shared));
    assert_eq!(elect(two(12), 2), "qwen_multi_pair2");
    assert_eq!(elect(two(23), 2), format!("{:?}", Route::Shared));
    assert_eq!(elect(vec![plane(1, 12, 1024)], 3), "qwen_pair3");
    assert_eq!(elect(vec![plane(1, 12, 512)], 3), format!("{:?}", Route::Linear));
    assert_eq!(elect(two(0x104), 3), format!("{:?}", Route::Affine));
    let mut cmd = Program::new();
    pair(&mut cmd, &vec![plane(1, 12, 1024), plane(2, 13, 2048), plane(3, 14, 1024)], buffer(9), 4);
    assert_eq!(names(&cmd), ["qwen_multi_pair4"]);
    assert_eq!(grid(&cmd.ops[0]), (128, 1, 1));
}

#[test]
fn experts_are_eight_bit_with_precise_routers() {
    let w = |ty| weight(1, ty, 2048, 256);
    assert!(Experts::load_with(w(0), w(30), w(8), w(8), w(8)).is_ok());
    let refused = Some(MetalError::Model(Fault::ExpertFormat));
    assert_eq!(Experts::load_with(w(8), w(0), w(8), w(8), w(8)).err(), refused);
    assert_eq!(Experts::load_with(w(0), w(0), w(8), w(0), w(8)).err(), refused);
    let e = Experts::load_with(w(0), w(0), w(8), w(8), w(8)).unwrap();
    let s = Workspace::new(50, 512);
    assert_eq!(s.logits.id, 50);
    assert_eq!(Workspace::bytes(512), 4 * Workspace::sizes(512).iter().sum::<usize>() as u64);
    let mut cmd = Program::new();
    s.project(&mut cmd, e, buffer(9), 4, false);
    assert_eq!(names(&cmd), ["qmoe_gu_decode", "qmoe_swiglu", "qmoe_down_decode"]);
    assert_eq!(grid(&cmd.ops[2]), (512, 32, 1));
    let mut wide = Program::new();
    s.moe_ffn(&mut wide, e, buffer(9), buffer(10), 512);
    assert_eq!(
        names(&wide),
        [
            "linear", "linear", "qmoe_route", "moe_align", "moe_tiles", "qmoe_gu_strict16",
            "qmoe_swiglu", "qmoe_down_strict16", "qmoe_fold",
        ]
    );
}

#[test]
fn images_are_laid_over_their_rows() {
    let image = SlotImage { slot: 1, offset: 4, rows: 6, embd: buffer(7) };
    let rows: Vec<Row> = (2..8).map(|p| Row { slot: 1, token: 0, position: p }).collect();
    let mut cmd = Program::new();
    inject_images(&mut cmd, &vec![image], &rows, buffer(8), 256, false);
    match &cmd.ops[0] {
        Op::Kernel { kernel, params, grid, .. } => {
            assert_eq!(*kernel, "spec_copy");
            assert_eq!(*params, [0, 2 * 256, 4 * 256]);
            assert_eq!(*grid, (4, 1, 1));
        }
        _ => panic!("no kernel"),
    }
    let mut none = Program::new();
    inject_images(&mut none, &vec![image], &rows[..2].to_vec(), buffer(8), 256, true);
    assert!(none.ops.is_empty());
    inject_mtp_images(&mut none, &vec![image], buffer(6), buffer(8), 256, 3);
    assert_eq!(names(&none), ["vis_inject"]);
    let copied = copy_image(&mut none, Buffer { id: 7, len: 4096 }, 70);
    assert_eq!(copied, Buffer { id: 70, len: 4096 });
}

#[test]
fn roles_join_into_spans() {
    let spans = join_roles(&vec![512, 512, 1, 512]);
    let span = |first, count, role| RowSpan { first, count, role };
    assert_eq!(spans, [span(0, 2, 512), span(2, 1, 1), span(3, 1, 512)]);
    assert!(join_roles(&vec![]).is_empty());
}

#[test]
fn rows_and_tables_are_spelled_out() {
    let mut out = vec![];
    push_tiles(&mut out, 5, 70, 32);
    assert_eq!(out, [5, 32, 37, 32, 69, 1]);
    let mut out = vec![];
    push_rows(&mut out, 3, 6);
    push_padded(&mut out, &vec![9, 8], 4);
    assert_eq!(out, [3, 4, 5, 9, 8, 0, 0]);
    assert_eq!((pages_missing(0, 0), pages_missing(1, 15), pages_missing(1, 40)), (1, 0, 2));
    let tokens: Vec<u32> = (0..700).collect();
    let (rows, outputs) = prefill_rows(2, &tokens, 0);
    assert_eq!((rows.len(), outputs.len()), (512, 0));
    let (rows, outputs) = prefill_rows(2, &tokens, 512);
    assert_eq!((rows.len(), outputs), (188, vec![187]));
    assert_eq!(rows[1], Row { slot: 2, token: 513, position: 513 });
    assert!(are_finite(&vec![0, 1f32.to_bits()]) && !are_finite(&vec![f32::NAN.to_bits()]));
    assert!(empty_slot().blocks.is_empty());
}

#[test]
fn destinations_are_empty_or_least_recent() {
    let mut cache: Vec<Checkpoint> = (0..3).map(|i| Checkpoint::empty(false, 10 - i)).collect();
    cache[1].history = vec![1];
    assert_eq!(choose_destination(&cache), Some(2));
    cache[0].history = vec![1];
    cache[2].history = vec![1];
    cache[0].reserved = true;
    assert_eq!(choose_destination(&cache), Some(2));
    let out = release(&mut cache, 2, true);
    assert_eq!((out.index, out.saved.history), (2, vec![1]));
    assert!(cache[2].reserved && cache[2].history.is_empty());
    assert_eq!(choose_destination(&cache), Some(1));
}

#[test]
fn each_shape_has_its_decode_kernel() {
    assert_eq!(Geometry::dense_9b().decode_kernel(), "qwen_attention_decode_gqa4");
    assert_eq!(Geometry::dense_27b().decode_kernel(), "qwen_attention_decode");
    assert_eq!(Geometry::moe_35b().decode_kernel(), "qwen_attention_decode_gqa8");
    assert_eq!(Geometry::moe_35b().prepared_element_bytes(), 4);
    assert_eq!(Geometry::dense_9b().prepared_element_bytes(), 2);
}

#[test]
fn pinned_decode_splits_do_not_depend_on_peers() {
    let splits = |accelerated: bool, rows: usize, length: usize| {
        let m = load(Kind::Affine, accelerated);
        let Mixer::Full(w) = m.graph.layers[3].mixer else { panic!("no attention") };
        let load = Load {
            rows,
            tiles: 0,
            decode_rows: rows,
            long_tiles: 0,
            decode_length: length,
            append_length: 1,
            text_only: true,
        };
        let mut cmd = Program::new();
        m.graph.full_attention(&mut cmd, w, load, &vec![]);
        let found = cmd.ops.iter().find_map(|op| match op {
            Op::Kernel { kernel, params, .. } if kernel.starts_with("mlx_attention") => {
                Some((kernel.to_string(), params[4], params[5]))
            }
            _ => None,
        });
        found.unwrap()
    };
    assert_eq!(splits(true, 1, 3000), ("mlx_attention_stable".to_string(), 24, 16));
    assert_eq!(splits(true, 4, 3000), splits(true, 1, 3000));
    assert_eq!(splits(true, 4, 100).1, 16);
    assert_eq!(splits(false, 4, 100), ("mlx_attention_decode".to_string(), 4, 4));
}
