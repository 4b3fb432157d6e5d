//! Loading a decoder: election, memory and the loaded graph. In-file
//! next-token weights are not run without speculation.
use vstd::prelude::*;
use std::collections::BTreeMap;
use crate::arith::min;
use crate::error::{Fault, MetalError};
use crate::header::{schema, Expected, Header};
use crate::offload::{setting, Configured};
use crate::program::{Buffer, Weight};
use crate::qwen35::bonsai::Bonsai;
use crate::qwen35::elect::{elect, election, Numbers};
use crate::qwen35::geometry::Geometry;
use crate::qwen35::graph::{Graph, Lanes, CHUNK, MAX_PAGES};
use crate::qwen35::image::all_wf;
use crate::qwen35::memory::{Kind, Sizing};
use crate::qwen35::moe::{plane_sizes, Workspace};
use crate::qwen35::schema::{
    build_layers, build_schema, graph_schema, layer_of, layer_start, lemma_head, planes_sided,
};
use crate::qwen35::source::{
    any_stray, first_lack, has_stray, plane_bytes, planes, Config, Source, Store,
};
use crate::qwen35::state::{Checkpoint, Qwen35, Saved, Slot};
use crate::qwen35::ternary::{
    any_nextn, first_fault, module_fault, sound_checkpoints_have_sound_modules, validate_tensors,
};

verus! {

broadcast use vstd::std_specs::btree::group_btree_axioms;

/// Bit patterns of one millionth and of ten million.
pub const PACKED_EPS: u32 = 0x3586_37bd;
pub const PACKED_ROPE: u32 = 0x4b18_9680;

/// What the device fixes.
#[derive(Clone, Copy, Debug, PartialEq, Eq, Structural)]
pub struct Machine {
    /// The grant, in bytes.
    pub budget: u64,
    /// It has tensor units.
    pub accelerated: bool,
    pub lanes: Lanes,
    /// Workspace and attention scratch of the packed lane.
    pub packed_workspace: u64,
    pub packed_attention: u64,
}

/// A loaded decoder, the pages of its pool and what it holds.
#[derive(Debug)]
pub struct Loaded {
    pub model: Qwen35,
    pub blocks: u32,
    pub weight_bytes: u128,
    pub kv_bytes: u64,
}

/// The numbers of a checkpoint that is not one mapped file.
pub open spec fn fixed_numbers(c: Config) -> Numbers {
    Numbers {
        geometry: Geometry::dense_27b(),
        vocab: 248320,
        rotary: 64,
        trained: c.context,
        eps: c.eps,
        rope: c.rope,
    }
}

/// What a source is, or why it is refused.
pub open spec fn sourced(src: &Source, context: usize, batch: usize) -> Result<(Kind, Numbers), Fault> {
    match src.store {
        Store::Packed { .. } => Ok(
            (
                Kind::Packed,
                fixed_numbers(Config { context: 262144, eps: PACKED_EPS, rope: PACKED_ROPE }),
            ),
        ),
        Store::Ternary { config, shards, modules } => if any_nextn(shards.tensors@) {
            Err(Fault::Foreign)
        } else {
            match first_fault(&shards, modules@, 0) {
                Some(f) => Err(f),
                None => Ok((Kind::Ternary, fixed_numbers(config))),
            }
        },
        Store::Affine { config, shards, .. } => if any_stray(shards.tensors@) {
            Err(Fault::Foreign)
        } else {
            Ok((Kind::Affine, fixed_numbers(config)))
        },
        Store::Mapped { rotated } => match election(&src.header, context, batch) {
            Err(f) => Err(f),
            Ok(n) => match rotated {
                None => Err(Fault::Rotation),
                Some(r) => Ok((if r { Kind::Rotated } else { Kind::Mapped }, n)),
            },
        },
    }
}

fn fix_numbers(c: Config) -> (r: Numbers)
    ensures
        r == fixed_numbers(c),
{
    Numbers {
        geometry: Geometry::dense_27b(),
        vocab: 248320,
        rotary: 64,
        trained: c.context,
        eps: c.eps,
        rope: c.rope,
    }
}

fn examine(src: &Source, context: usize, batch: usize) -> (r: Result<(Kind, Numbers), MetalError>)
    ensures
        r == match sourced(src, context, batch) {
            Ok(x) => Ok::<(Kind, Numbers), MetalError>(x),
            Err(f) => Err(MetalError::Model(f)),
        },
{
    match &src.store {
        Store::Packed { .. } => Ok(
            (
                Kind::Packed,
                fix_numbers(Config { context: 262144, eps: PACKED_EPS, rope: PACKED_ROPE }),
            ),
        ),
        Store::Ternary { config, shards, modules } => match validate_tensors(shards, modules) {
            Ok(_) => Ok((Kind::Ternary, fix_numbers(*config))),
            Err(e) => Err(e),
        },
        Store::Affine { config, shards, .. } => {
            if has_stray(shards) {
                return Err(MetalError::Model(Fault::Foreign));
            }
            Ok((Kind::Affine, fix_numbers(*config)))
        },
        Store::Mapped { rotated } => match elect(&src.header, context, batch) {
            Err(e) => Err(e),
            Ok(n) => match *rotated {
                None => Err(MetalError::Model(Fault::Rotation)),
                Some(r) => Ok((if r { Kind::Rotated } else { Kind::Mapped }, n)),
            },
        },
    }
}

/// The longest context that is served: trained length is no qualification of
/// the routed graph.
pub open spec fn longest(n: Numbers) -> int {
    if n.geometry.is_moe() { min(n.trained as int, 32768) } else { n.trained as int }
}

/// The most sequences that are served at once.
pub open spec fn widest(kind: Kind, g: Geometry) -> int {
    if kind == Kind::Packed || kind == Kind::Ternary || kind == Kind::Rotated {
        4
    } else if g.is_moe() {
        64
    } else {
        512
    }
}

pub open spec fn sizing(
    kind: Kind,
    n: Numbers,
    m: Machine,
    context: usize,
    batch: usize,
    tiered: bool,
) -> Sizing {
    Sizing {
        kind,
        geometry: n.geometry,
        vocab: n.vocab,
        context,
        batch,
        tiered,
        packed_workspace: m.packed_workspace,
        packed_attention: m.packed_attention,
    }
}

/// Why a checkpoint is not loaded.
pub open spec fn load_fault(
    src: &Source,
    m: Machine,
    context: usize,
    batch: usize,
    tiered: bool,
) -> Option<MetalError> {
    match sourced(src, context, batch) {
        Err(f) => Some(MetalError::Model(f)),
        Ok((kind, n)) => {
            let s = sizing(kind, n, m, context, batch, tiered);
            let list = graph_schema(
                &src.header,
                kind.is_mapped(),
                n.geometry,
                n.vocab,
                n.geometry.layers as int,
            );
            if context == 0 || context > longest(n) || batch == 0 || batch > widest(kind, n.geometry) {
                Some(MetalError::Model(Fault::Range))
            } else if !s.countable() {
                Some(MetalError::Memory(Fault::Overflow))
            } else if s.needed(src.header.total) > m.budget {
                Some(MetalError::Memory(Fault::Budget))
            } else {
                match first_lack(src, list, 0) {
                    Some(i) => Some(MetalError::Model(Fault::Tensor { index: i as usize })),
                    None => None,
                }
            }
        },
    }
}

/// What a graph is made of that was loaded with the planes `w`.
pub open spec fn graph_loaded(w: Seq<Weight>, kind: Kind, n: Numbers, m: Machine, s: Sizing, x: Graph) -> bool {
    let g = n.geometry;
    let first = w.len() as int;
    let after = first + 2 * g.full();
    &&& x.mlx == kind.is_mlx()
    &&& x.splash == (kind == Kind::Packed)
    &&& x.ternary == (kind == Kind::Rotated)
    &&& x.bonsai is Some <==> kind == Kind::Ternary
    &&& x.bonsai matches Some(b) ==> {
        &&& b.signs@ == signs_from(after + 45)
        &&& b.rotated == (Buffer { id: (after + 48) as u32, len: 35651584 })
    }
    &&& x.accelerated == m.accelerated
    &&& x.lanes == m.lanes
    &&& x.geometry == g
    &&& x.embedding == w[0]
    &&& x.output_norm == w[1]
    &&& x.head == w[2]
    &&& forall|i: int|
        0 <= i < g.layers ==> #[trigger] x.layers[i] == layer_of(w, g, first, s.kv_layer(), i)
    &&& x.state == (Buffer { id: after as u32, len: s.state_bytes() as u64 })
    &&& x.conv == (Buffer { id: (after + 1) as u32, len: s.conv_bytes() as u64 })
    &&& x.scratch.planes() == Seq::new(
        34,
        |i: int| Buffer { id: (after + 2 + i) as u32, len: s.scratch_sizes()[i] as u64 },
    )
    &&& x.moe_scratch is Some <==> g.is_moe()
    &&& x.moe_scratch matches Some(w) ==> w.rows == CHUNK && w.planes() == Seq::new(
        9,
        |i: int| Buffer { id: (after + 36 + i) as u32, len: (plane_sizes(512)[i] * 4) as u64 },
    )
    &&& x.vocab == n.vocab
    &&& x.context == s.context
    &&& x.page_stride == s.page_stride()
    &&& x.state_slots == 3 * s.batch
    &&& x.row_capacity == CHUNK
    &&& x.eps == n.eps
    &&& x.rope == n.rope
    &&& x.rotary == n.rotary
    &&& x.spec is None
    &&& !x.verifying
    &&& !x.greedy_output
    &&& x.mtp is None
    &&& x.dflash is None
}

/// What a loaded decoder is made of.
pub open spec fn loaded(
    src: &Source,
    m: Machine,
    context: usize,
    batch: usize,
    tiered: bool,
    out: Loaded,
) -> bool {
    let (kind, n) = sourced(src, context, batch)->Ok_0;
    let s = sizing(kind, n, m, context, batch, tiered);
    let g = n.geometry;
    let list = graph_schema(&src.header, kind.is_mapped(), g, n.vocab, g.layers as int);
    let w = planes(src, list);
    let x = out.model;
    &&& out.blocks == s.blocks()
    &&& out.weight_bytes == plane_bytes(w, w.len() as int)
    &&& out.kv_bytes == s.kv_bytes()
    &&& graph_loaded(w, kind, n, m, s, x.graph)
    &&& x.slots.len() == batch
    &&& forall|i: int| 0 <= i < batch ==> idle(#[trigger] x.slots[i])
    &&& x.checkpoints() == Seq::new(
        (2 * batch) as nat,
        |i: int| Saved {
            reserved: false,
            blocks: Seq::empty(),
            history: Seq::empty(),
            touched: 0,
            images: Seq::empty(),
        },
    )
    &&& x.clock == 0
    &&& x.pending.len() == 0
    &&& !x.uncommitted
}

/// A slot without a sequence.
pub open spec fn idle(s: Slot) -> bool {
    &&& !s.cold_consulted
    &&& s.prefill_end == 0
    &&& s.blocks.len() == 0
    &&& s.history.len() == 0
    &&& s.reused == 0
    &&& s.cuts.len() == 0
    &&& s.mm is None
}

/// Sign vectors of the rotated widths, narrowest first.
pub open spec fn signs_from(first: int) -> Map<usize, Buffer> {
    Map::<usize, Buffer>::empty().insert(5120, Buffer { id: first as u32, len: 20480 }).insert(
        6144,
        Buffer { id: (first + 1) as u32, len: 24576 },
    ).insert(17408, Buffer { id: (first + 2) as u32, len: 69632 })
}

fn ternary_lane(first: u32) -> (r: Bonsai)
    requires
        first <= 0x7fff_ffff,
    ensures
        r.signs@ == signs_from(first as int),
        r.rotated == (Buffer { id: (first + 3) as u32, len: 35651584 }),
        r.wf(),
{
    let mut signs: BTreeMap<usize, Buffer> = BTreeMap::new();
    signs.insert(5120, Buffer { id: first, len: 20480 });
    signs.insert(6144, Buffer { id: first + 1, len: 24576 });
    signs.insert(17408, Buffer { id: first + 2, len: 69632 });
    Bonsai { signs, rotated: Buffer { id: first + 3, len: 35651584 } }
}

fn fresh_slots(n: usize) -> (r: Vec<Slot>)
    ensures
        r.len() == n,
        forall|i: int| 0 <= i < n ==> idle(#[trigger] r[i]),
{
    let mut out: Vec<Slot> = Vec::new();
    let mut i: usize = 0;
    while i < n
        invariant
            i <= n,
            out.len() == i,
            forall|j: int| 0 <= j < i ==> idle(#[trigger] out[j]),
        decreases n - i,
    {
        out.push(Slot::new());
        i = i + 1;
    }
    out
}

fn fresh_checkpoints(n: usize) -> (r: Vec<Checkpoint>)
    ensures
        r.len() == n,
        forall|i: int|
            0 <= i < n ==> (#[trigger] r[i])@ == (Saved {
                reserved: false,
                blocks: Seq::empty(),
                history: Seq::empty(),
                touched: 0,
                images: Seq::empty(),
            }),
        forall|i: int| 0 <= i < n ==> all_wf((#[trigger] r[i]).images@),
{
    let mut out: Vec<Checkpoint> = Vec::new();
    let mut i: usize = 0;
    while i < n
        invariant
            i <= n,
            out.len() == i,
            forall|j: int|
                0 <= j < i ==> (#[trigger] out[j])@ == (Saved {
                    reserved: false,
                    blocks: Seq::empty(),
                    history: Seq::empty(),
                    touched: 0,
                    images: Seq::empty(),
                }),
            forall|j: int| 0 <= j < i ==> all_wf((#[trigger] out[j]).images@),
        decreases n - i,
    {
        out.push(Checkpoint::empty(false, 0));
        i = i + 1;
    }
    out
}

fn assemble(
    w: &Vec<Weight>,
    kind: Kind,
    n: Numbers,
    machine: Machine,
    s: Sizing,
    blocks: u32,
    Ghost(list): Ghost<Seq<Expected>>,
    Ghost(h): Ghost<&Header>,
) -> (r: Graph)
    requires
        s.sane(),
        s.countable(),
        s.kind == kind,
        s.geometry == n.geometry,
        s.vocab == n.vocab,
        blocks == s.blocks(),
        machine.lanes.decode_parts <= 0x1000,
        kind == Kind::Packed || kind == Kind::Ternary ==> n.geometry == Geometry::dense_27b() && n.vocab
            == 248320,
        list == graph_schema(h, kind.is_mapped(), n.geometry, n.vocab, n.geometry.layers as int),
        list.len() == layer_start(n.geometry, n.geometry.layers as int),
        planes_sided(w@, list),
    ensures
        r.wf(),
        graph_loaded(w@, kind, n, machine, s, r),
{
    let g = n.geometry;
    let ghost mapped = kind.is_mapped();
    assert(w.len() <= 1000);
    let first: u32 = w.len() as u32;
    let after: u32 = first + 2 * g.full_layers() as u32;
    let kv_layer: u64 = s.layer_bytes(blocks);
    let layers = build_layers(
        w,
        g,
        first,
        kv_layer,
        Ghost(list),
        Ghost(h),
        Ghost(mapped),
        Ghost(n.vocab),
    );
    let embedding = w[0];
    let output_norm = w[1];
    let head = w[2];
    assert(embedding.k == g.width && embedding.n == n.vocab && head.k == g.width && head.n == n.vocab) by {
        lemma_head(h, mapped, g, n.vocab, g.layers as int);
        assert(list[0] == graph_schema(h, mapped, g, n.vocab, 0)[0]);
        assert(list[2] == graph_schema(h, mapped, g, n.vocab, 0)[2]);
    }
    let (state_bytes, conv_bytes) = s.recurrent_bytes();
    let scratch = s.scratch(after + 2);
    let moe_scratch = if g.moe() { Some(Workspace::new(after + 36, CHUNK)) } else { None };
    let bonsai = if kind == Kind::Ternary { Some(ternary_lane(after + 45)) } else { None };
    assert(s.page_stride() <= MAX_PAGES) by {
        s.lemma_stride();
    }
    Graph {
        mlx: kind.mlx(),
        splash: kind == Kind::Packed,
        bonsai,
        ternary: kind == Kind::Rotated,
        accelerated: machine.accelerated,
        lanes: machine.lanes,
        geometry: g,
        embedding,
        output_norm,
        head,
        layers,
        scratch,
        moe_scratch,
        state: Buffer { id: after, len: state_bytes },
        conv: Buffer { id: after + 1, len: conv_bytes },
        vocab: n.vocab,
        context: s.context,
        page_stride: s.pages(),
        state_slots: 3 * s.batch,
        row_capacity: CHUNK,
        eps: n.eps,
        rope: n.rope,
        rotary: n.rotary,
        spec: None,
        verifying: false,
        greedy_output: false,
        mtp: None,
        dflash: None,
    }
}

impl Qwen35 {
    fn load_impl(
        src: &Source,
        context: usize,
        max_batch: usize,
        machine: Machine,
        tiered: bool,
    ) -> (r: Result<Loaded, MetalError>)
        requires
            src.sized(),
            machine.lanes.decode_parts <= 0x1000,
        ensures
            match load_fault(src, machine, context, max_batch, tiered) {
                Some(e) => r == Err::<Loaded, MetalError>(e),
                None => {
                    &&& r matches Ok(out)
                    &&& out.model.wf()
                    &&& loaded(src, machine, context, max_batch, tiered, out)
                },
            },
    {
        let (kind, n) = match examine(src, context, max_batch) {
            Ok(x) => x,
            Err(e) => {
                return Err(e);
            },
        };
        let g = n.geometry;
        let limit: usize = if g.moe() && n.trained > 32768 { 32768 } else { n.trained };
        let width: usize = if kind == Kind::Packed || kind == Kind::Ternary || kind == Kind::Rotated {
            4
        } else if g.moe() {
            64
        } else {
            512
        };
        if context == 0 || context > limit || max_batch == 0 || max_batch > width {
            return Err(MetalError::Model(Fault::Range));
        }
        let s = Sizing {
            kind,
            geometry: g,
            vocab: n.vocab,
            context,
            batch: max_batch,
            tiered,
            packed_workspace: machine.packed_workspace,
            packed_attention: machine.packed_attention,
        };
        assert(s.sane());
        let blocks: u32 = match s.count_blocks() {
            Some(b) => b,
            None => {
                return Err(MetalError::Memory(Fault::Overflow));
            },
        };
        if s.need(src.header.total, blocks) > machine.budget {
            return Err(MetalError::Memory(Fault::Budget));
        }
        let list = build_schema(&src.header, kind.mapped(), g, n.vocab);
        assert(list.len() <= 1000);
        let (w, weight_bytes) = match src.load_all(&list) {
            Ok(x) => x,
            Err(e) => {
                return Err(e);
            },
        };
        let graph = assemble(
            &w,
            kind,
            n,
            machine,
            s,
            blocks,
            Ghost(schema(list@)),
            Ghost(&src.header),
        );
        let model = Qwen35 {
            graph,
            slots: fresh_slots(max_batch),
            cache: fresh_checkpoints(2 * max_batch),
            clock: 0,
            pending: Vec::new(),
            uncommitted: false,
        };
        let out = Loaded { model, blocks, weight_bytes, kv_bytes: s.cache_bytes(blocks) };
        assert(out.model.checkpoints() =~= Seq::new(
            (2 * max_batch) as nat,
            |i: int| Saved {
                reserved: false,
                blocks: Seq::empty(),
                history: Seq::empty(),
                touched: 0,
                images: Seq::empty(),
            },
        ));
        Ok(out)
    }

    /// Load an elected decoder. Pages for a colder tier are laid out where
    /// one is configured.
    pub fn load(
        src: &Source,
        context: usize,
        max_batch: usize,
        machine: Machine,
        configured: &Configured,
    ) -> (r: Result<Loaded, MetalError>)
        requires
            src.sized(),
            machine.lanes.decode_parts <= 0x1000,
        ensures
            match load_fault(src, machine, context, max_batch, setting(*configured) is Some) {
                Some(e) => r == Err::<Loaded, MetalError>(e),
                None => {
                    &&& r matches Ok(out)
                    &&& out.model.wf()
                    &&& loaded(src, machine, context, max_batch, setting(*configured) is Some, out)
                },
            },
    {
        let tiered = match &configured.value {
            Some(Some(_)) => true,
            _ => false,
        };
        Self::load_impl(src, context, max_batch, machine, tiered)
    }

    /// Load with pages for a colder tier in any case.
    pub fn load_for_offload(src: &Source, context: usize, max_batch: usize, machine: Machine) -> (r:
        Result<Loaded, MetalError>)
        requires
            src.sized(),
            machine.lanes.decode_parts <= 0x1000,
        ensures
            match load_fault(src, machine, context, max_batch, true) {
                Some(e) => r == Err::<Loaded, MetalError>(e),
                None => {
                    &&& r matches Ok(out)
                    &&& out.model.wf()
                    &&& loaded(src, machine, context, max_batch, true, out)
                },
            },
    {
        Self::load_impl(src, context, max_batch, machine, true)
    }
}

/// A ternary directory that is loaded has been validated: no next-token
/// tensor, signs as configured, three levels only, and a bias that negates its
/// scale wherever both are stored. So the biases, which stay behind, add
/// nothing.
pub proof fn loaded_ternary_directories_are_sound(
    src: &Source,
    m: Machine,
    context: usize,
    batch: usize,
    tiered: bool,
    i: int,
)
    requires
        load_fault(src, m, context, batch, tiered) is None,
    ensures
        src.store matches Store::Ternary { shards, modules, .. } ==> {
            &&& !any_nextn(shards.tensors@)
            &&& first_fault(&shards, modules@, 0) is None
            &&& 0 <= i < modules.len() ==> module_fault(&shards, modules[i], i as usize) is None
        },
{
    if let Store::Ternary { shards, modules, .. } = src.store {
        if 0 <= i < modules.len() {
            sound_checkpoints_have_sound_modules(&shards, modules@, 0, i);
        }
    }
}

} // verus!
