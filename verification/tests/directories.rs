use paddock_metal::error::{Fault, MetalError};
use paddock_metal::header::Header;
use paddock_metal::offload::Configured;
use paddock_metal::program::{Buffer, Weight};
use paddock_metal::qwen35::checkpoint::{
    small_shape, Dtype, Formats, PackedTensor, Shards, Stored,
};
use paddock_metal::qwen35::geometry::Geometry;
use paddock_metal::qwen35::graph::{Lanes, Mixer};
use paddock_metal::qwen35::load::{Loaded, Machine};
use paddock_metal::qwen35::schema::build_schema;
use paddock_metal::qwen35::source::{Config, Held, Name, Packed, Source, Store};
use paddock_metal::qwen35::state::Qwen35;
use paddock_metal::qwen35::ternary::Module;

/// A directory of the large dense shape, by the kind of its store.
#[derive(Clone, Copy, PartialEq)]
enum Kind {
    Affine,
    Ternary,
    Packed,
}

const CONFIG: Config = Config { context: 8192, eps: 0x3586_37bd, rope: 0x4b18_9680 };

fn ones(n: usize) -> Vec<u8> {
    (0..n).flat_map(|_| 1f32.to_le_bytes()).collect()
}

fn directory<'a>(kind: Kind, signs: &'a [u8]) -> Source<'a> {
    let header = Header { architecture: None, fields: vec![], tensors: vec![], total: 0 };
    let list = build_schema(&header, false, Geometry::dense_27b(), 248320);
    let mut source = Source { header, names: vec![], store: Store::Mapped { rotated: None } };
    let mut shards = Shards { tensors: vec![] };
    let mut lane = vec![];
    let mut tensors = vec![];
    for e in &list {
        source.names.push(Name {
            plane: e.name.clone(),
            mapped: format!("model.language_model.{}", e.name),
        });
        let stored = source.stored_text(&e.name).unwrap();
        let matrix = e.dims.len() == 2 && !e.name.ends_with("ssm_conv1d.weight");
        let bytes = e.dims.iter().product::<u64>();
        let mut put = |name: String, dtype, shape| {
            shards.tensors.push(Stored { name, dtype, shape, data: &[] });
        };
        if matrix && kind == Kind::Ternary {
            let stem = stored.strip_suffix(".weight").unwrap().to_string();
            put(stored.clone(), Dtype::U32, vec![e.dims[1], e.dims[0] / 16]);
            put(format!("{stem}.scales"), Dtype::F16, vec![e.dims[1], e.dims[0] / 128]);
            put(format!("{stem}.biases"), Dtype::F16, vec![e.dims[1], e.dims[0] / 128]);
        } else if matrix {
            put(stored, Dtype::U32, vec![1]);
        } else {
            let dtype = if kind == Kind::Ternary { Dtype::F32 } else { Dtype::Bf16 };
            put(stored, dtype, small_shape(&e.name, &e.dims));
        }
        lane.push(if matrix { Some(Held { ty: 0x104, bytes }) } else { None });
        tensors.push(Packed {
            name: e.name.clone(),
            tensor: PackedTensor {
                dims: e.dims.clone(),
                affine: matrix,
                half: None,
                tiled: bytes + 1,
                native: bytes,
            },
        });
    }
    let name = "language_model.lm_head.signs".to_string();
    shards.tensors.push(Stored { name, dtype: Dtype::F32, shape: vec![5120], data: signs });
    let module = Module { name: "lm_head".into(), width: 5120, signs: vec![1f32.to_bits(); 5120] };
    source.store = match kind {
        Kind::Affine => Store::Affine { config: CONFIG, shards, lane },
        Kind::Ternary => Store::Ternary { config: CONFIG, shards, modules: vec![module] },
        Kind::Packed => {
            Store::Packed { tensors, formats: Formats { affine4: 0x104, packed4: 0x204 } }
        }
    };
    source
}

fn load(source: &Source) -> Result<Loaded, MetalError> {
    let machine = Machine {
        budget: 1 << 44,
        accelerated: true,
        lanes: Lanes { affine4: 0x104, long_decode: 1024, decode_parts: 8 },
        packed_workspace: 1 << 30,
        packed_attention: 1 << 30,
    };
    Qwen35::load(source, 4096, 4, machine, &Configured { value: None })
}

fn refused(source: &Source) -> Fault {
    match load(source) {
        Err(MetalError::Model(f) | MetalError::Memory(f)) => f,
        Ok(_) => panic!("accepted"),
    }
}

/// The stored tensors of a directory.
fn stored<'b, 'a>(source: &'b mut Source<'a>) -> &'b mut Vec<Stored<'a>> {
    match &mut source.store {
        Store::Affine { shards, .. } | Store::Ternary { shards, .. } => &mut shards.tensors,
        _ => panic!("no directory of tensors"),
    }
}

fn tensor<'b, 'a>(source: &'b mut Source<'a>, name: &str) -> &'b mut Stored<'a> {
    stored(source).iter_mut().find(|t| t.name == name).unwrap()
}

fn norm(w: &Weight) -> (Buffer, u32, usize, usize) {
    (w.buffer, w.ty, w.k, w.n)
}

const CONV: &str = "language_model.model.blk.0.ssm_conv1d.weight";

#[test]
fn affine_directories_load_their_stored_planes() {
    let signs = ones(5120);
    let mut source = directory(Kind::Affine, &signs);
    let bytes = [0u8; 20480];
    tensor(&mut source, "language_model.model.norm.weight").data = &bytes[..10240];
    let out = load(&source).unwrap();
    let g = &out.model.graph;
    let whole = 5120 * 248320;
    assert_eq!(norm(&g.embedding), (Buffer { id: 0, len: whole }, 0x104, 5120, 248320));
    // Half the bytes of single precision, widened.
    assert_eq!(norm(&g.output_norm), (Buffer { id: 1, len: 20480 }, 0, 5120, 1));
    assert_eq!(g.head.buffer, Buffer { id: 2, len: whole });
    let Mixer::Linear(w) = g.layers[0].mixer else { panic!("no recurrence") };
    assert_eq!((w.qkv.buffer.id, w.qkv.ty, w.conv.ty), (3, 0x104, 0));
    assert!(out.weight_bytes > 2 * whole as u128);
    // Every small plane has the sanitised layout.
    tensor(&mut source, CONV).shape.pop();
    assert_eq!(refused(&source), Fault::Tensor { index: 8 });
    tensor(&mut source, CONV).shape.push(1);
    tensor(&mut source, CONV).dtype = Dtype::F32;
    assert_eq!(refused(&source), Fault::Tensor { index: 8 });
    // Every matrix is one that the lane takes, under the name of the table.
    let mut source = directory(Kind::Affine, &signs);
    source.names[3].mapped = "elsewhere".into();
    assert_eq!(refused(&source), Fault::Tensor { index: 3 });
    let mut source = directory(Kind::Affine, &signs);
    if let Store::Affine { lane, .. } = &mut source.store {
        lane[4] = None;
    }
    assert_eq!(refused(&source), Fault::Tensor { index: 4 });
}

#[test]
fn stray_tensors_are_refused_by_their_stored_names() {
    let signs = ones(5120);
    for name in ["mtp.fc.weight", "language_model.mtp.fc.weight"] {
        for kind in [Kind::Affine, Kind::Ternary] {
            let mut source = directory(kind, &signs);
            stored(&mut source).push(Stored {
                name: name.into(),
                dtype: Dtype::F32,
                shape: vec![1],
                data: &[],
            });
            assert_eq!(refused(&source), Fault::Foreign);
        }
    }
}

#[test]
fn ternary_directories_are_validated_before_they_load() {
    let signs = ones(5120);
    let source = directory(Kind::Ternary, &signs);
    let out = load(&source).unwrap();
    assert_eq!(norm(&out.model.graph.head), (Buffer { id: 2, len: 0 }, 0x102, 5120, 248320));
    assert_eq!(out.model.graph.output_norm.ty, 0);
    let mut flipped = ones(5120);
    flipped[4 * 7 + 3] ^= 0x80;
    assert_eq!(refused(&directory(Kind::Ternary, &flipped)), Fault::Signs { index: 0 });
    let mut source = directory(Kind::Ternary, &signs);
    tensor(&mut source, "language_model.lm_head.weight").data = &[3, 0, 0, 0];
    assert_eq!(refused(&source), Fault::Codes { index: 0 });
    let mut source = directory(Kind::Ternary, &signs);
    tensor(&mut source, "language_model.lm_head.scales").data = &[0, 0x3c];
    tensor(&mut source, "language_model.lm_head.biases").data = &[0, 0x3c];
    assert_eq!(refused(&source), Fault::Scales { index: 0 });
    tensor(&mut source, "language_model.lm_head.biases").data = &[0, 0xbc];
    assert_eq!(load(&source).unwrap().model.graph.head.buffer.len, 2);
    // Then every plane: shapes, and finite numbers in single precision.
    tensor(&mut source, "language_model.model.norm.weight").data = &[0, 0, 0x80, 0x7f];
    assert_eq!(refused(&source), Fault::Tensor { index: 1 });
    let mut source = directory(Kind::Ternary, &signs);
    tensor(&mut source, "language_model.model.embed_tokens.scales").shape[1] = 41;
    assert_eq!(refused(&source), Fault::Tensor { index: 0 });
}

#[test]
fn signs_are_compared_as_numbers() {
    let plus = ones(5120);
    let with = |signs: &[u8], want: u32| {
        let mut source = directory(Kind::Ternary, signs);
        if let Store::Ternary { modules, .. } = &mut source.store {
            modules[0].signs[0] = want;
        }
        load(&source).map(|_| ())
    };
    let first = |bits: u32| {
        let mut signs = ones(5120);
        signs[..4].copy_from_slice(&bits.to_le_bytes());
        signs
    };
    let other = Err(MetalError::Model(Fault::Signs { index: 0 }));
    assert_eq!(with(&plus, 1f32.to_bits()), Ok(()));
    assert_eq!(with(&plus, 2f32.to_bits()), other);
    assert_eq!(with(&first(0), (-0f32).to_bits()), Ok(()));
    assert_eq!(with(&first((-0f32).to_bits()), 0), Ok(()));
    let nan = f32::NAN.to_bits();
    assert_eq!(with(&first(nan), nan), other);
    assert_eq!(with(&first(f32::INFINITY.to_bits()), f32::INFINITY.to_bits()), Ok(()));
}

#[test]
fn packed_directories_load_their_tensors() {
    let mut source = directory(Kind::Packed, &[]);
    let out = load(&source).unwrap();
    let g = &out.model.graph;
    let whole = 5120 * 248320;
    // The embedding keeps its rows; other codes are tiled.
    assert_eq!(norm(&g.embedding), (Buffer { id: 0, len: whole }, 0x104, 5120, 248320));
    assert_eq!(norm(&g.head), (Buffer { id: 2, len: whole + 1 }, 0x204, 5120, 248320));
    assert_eq!(norm(&g.output_norm), (Buffer { id: 1, len: 5120 }, 0, 5120, 1));
    if let Store::Packed { tensors, .. } = &mut source.store {
        tensors[2].tensor.dims[1] = 7;
    }
    assert_eq!(refused(&source), Fault::Tensor { index: 2 });
    if let Store::Packed { tensors, .. } = &mut source.store {
        tensors[1].name = "other".into();
    }
    assert_eq!(refused(&source), Fault::Tensor { index: 1 });
}

#[test]
fn one_plane_is_loaded_by_the_kind_of_its_store() {
    let signs = ones(5120);
    let dims = vec![5120, 248320];
    for (kind, ty) in [(Kind::Affine, 0x104), (Kind::Ternary, 0x102), (Kind::Packed, 0x204)] {
        let source = directory(kind, &signs);
        let w = source.load("output.weight", &dims, 77).unwrap();
        assert_eq!((w.buffer.id, w.ty, w.k, w.n), (77, ty, 5120, 248320));
        let missing = Err(MetalError::Model(Fault::Missing));
        assert_eq!(source.load("blk.99.attn_q.weight", &dims, 0), missing);
        assert_eq!(source.load("output.weight", &vec![], 0), Err(MetalError::Model(Fault::Shape)));
    }
}
