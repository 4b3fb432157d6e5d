//! A stored decoder: one mapped file or a directory of tensors, and the plane
//! that each of its names gives.
use vstd::prelude::*;
use crate::error::{Fault, MetalError};
use crate::header::{
    contains_part, has_part, is_named, occurs, occurs_at, placed, same_dims, schema, Entry, Expected,
    Header, ANY_FORMAT,
};
use crate::program::{Buffer, Weight};
use crate::qwen35::checkpoint::{
    ends_in, has_end, is_matrix, lemma_stored_at, outputs, packed_plane, plan_affine, selects, splash_weight,
    stored_at, stored_name, stored_shape, hf_name, Dtype, Formats, PackedTensor, Plan, Shards, Stored,
};
use crate::qwen35::ternary::{load_weight, plane_of, Module};

verus! {

/// What a directory of tensors says besides them.
#[derive(Clone, Copy, Debug, PartialEq, Eq, Structural)]
pub struct Config {
    pub context: usize,
    pub eps: u32,
    pub rope: u32,
}

/// One line of the family's name table: a plane, and what it is called in a
/// directory.
#[derive(Debug)]
pub struct Name {
    pub plane: String,
    pub mapped: String,
}

/// Format and bytes of a resident plane.
#[derive(Clone, Copy, Debug, PartialEq, Eq, Structural)]
pub struct Held {
    pub ty: u32,
    pub bytes: u64,
}

/// A tensor of a packed checkpoint, by the name of its plane.
#[derive(Debug)]
pub struct Packed {
    pub name: String,
    pub tensor: PackedTensor,
}

/// How a checkpoint is stored, as it was found.
#[derive(Debug)]
pub enum Store<'a> {
    /// One mapped file. `rotated` tells whether its ternary planes are
    /// rotated; none where that is refused.
    Mapped { rotated: Option<bool> },
    /// A directory of affine tensors. `lane` tells of each stored tensor what
    /// the affine lane makes of it as a matrix; none where it refuses it.
    Affine { config: Config, shards: Shards<'a>, lane: Vec<Option<Held>> },
    /// A directory of native ternary tensors, and the packed modules that it
    /// is configured to have.
    Ternary { config: Config, shards: Shards<'a>, modules: Vec<Module> },
    Packed { tensors: Vec<Packed>, formats: Formats },
}

/// A checkpoint. The header is that of a mapped file; of a directory it has
/// the byte count only, and what is stored stands in `store`.
#[derive(Debug)]
pub struct Source<'a> {
    pub header: Header,
    pub names: Vec<Name>,
    pub store: Store<'a>,
}

/// What the name table gives for a plane, from line `i` on.
pub open spec fn table_name(names: Seq<Name>, plane: Seq<char>, i: int) -> Option<Seq<char>>
    decreases names.len() - i,
{
    if i >= names.len() {
        None
    } else if names[i].plane@ == plane {
        Some(names[i].mapped@)
    } else {
        table_name(names, plane, i + 1)
    }
}

/// The place of the first packed tensor called `name` from `i` on.
pub open spec fn packed_at(tensors: Seq<Packed>, name: Seq<char>, i: int) -> Option<int>
    decreases tensors.len() - i,
{
    if i >= tensors.len() {
        None
    } else if tensors[i].name@ == name {
        Some(i)
    } else {
        packed_at(tensors, name, i + 1)
    }
}

fn find_packed(tensors: &Vec<Packed>, name: &str) -> (r: Option<usize>)
    ensures
        match r {
            Some(i) => i < tensors.len() && packed_at(tensors@, name@, 0) == Some(i as int),
            None => packed_at(tensors@, name@, 0) is None,
        },
{
    let mut i: usize = 0;
    while i < tensors.len()
        invariant
            i <= tensors.len(),
            packed_at(tensors@, name@, 0) == packed_at(tensors@, name@, i as int),
        decreases tensors.len() - i,
    {
        if is_named(&tensors[i].name, name) {
            return Some(i);
        }
        i = i + 1;
    }
    None
}

/// A stray next-token tensor.
pub open spec fn stray(name: Seq<char>) -> bool {
    occurs(name, "mtp."@, 0) || has_part(name, ".mtp."@)
}

pub open spec fn any_stray(tensors: Seq<Stored>) -> bool {
    exists|i: int| 0 <= i < tensors.len() && stray((#[trigger] tensors[i]).name@)
}

/// Whether a directory stores a stray next-token tensor.
pub fn has_stray(shards: &Shards) -> (r: bool)
    ensures
        r == any_stray(shards.tensors@),
{
    let mut i: usize = 0;
    while i < shards.tensors.len()
        invariant
            i <= shards.tensors.len(),
            forall|j: int| 0 <= j < i ==> !stray((#[trigger] shards.tensors[j]).name@),
        decreases shards.tensors.len() - i,
    {
        let name = shards.tensors[i].name.as_str();
        if occurs_at(name, "mtp.", 0) || contains_part(name, ".mtp.") {
            return true;
        }
        i = i + 1;
    }
    false
}

/// A plane has a side at least, and the two that some names ask for.
pub open spec fn sided(name: Seq<char>, dims: Seq<u64>) -> bool {
    &&& 0 < dims.len()
    &&& ends_in(name, "ssm_conv1d.weight"@) || selects(name) ==> 2 <= dims.len()
}

/// A plane of an affine directory: a matrix as the lane takes it, a small
/// plane widened to single precision where its layout is the sanitised one.
pub open spec fn affine_plane(
    shards: &Shards,
    lane: Seq<Option<Held>>,
    name: Seq<char>,
    stored: Option<Seq<char>>,
    dims: Seq<u64>,
) -> Result<Held, Fault> {
    match stored {
        None => Err(Fault::Missing),
        Some(s) => match stored_at(shards.tensors@, s, 0) {
            None => Err(Fault::Missing),
            Some(i) => {
                let t = shards.tensors[i];
                if is_matrix(name, dims) {
                    if i < lane.len() && lane[i] is Some {
                        Ok(lane[i]->0)
                    } else {
                        Err(Fault::Shape)
                    }
                } else if t.dtype != Dtype::Bf16 || t.shape@ != stored_shape(name, dims) {
                    Err(Fault::Shape)
                } else {
                    Ok(Held { ty: 0, bytes: (t.data@.len() / 2 * 4) as u64 })
                }
            },
        },
    }
}

impl<'a> Source<'a> {
    /// What a plane is called in this directory.
    pub open spec fn stored(&self, name: Seq<char>) -> Option<Seq<char>> {
        stored_name(name, table_name(self.names@, name, 0))
    }

    /// The resident form of a plane of these sides, or what is wrong with it.
    pub open spec fn plane(&self, name: Seq<char>, dims: Seq<u64>) -> Result<Held, Fault> {
        if !sided(name, dims) {
            Err(Fault::Shape)
        } else {
            match self.store {
                Store::Mapped { .. } => match self.header.tensor(name) {
                    None => Err(Fault::Missing),
                    Some(t) => if t.dims@ == dims {
                        Ok(Held { ty: t.ty, bytes: t.bytes })
                    } else {
                        Err(Fault::Shape)
                    },
                },
                Store::Affine { shards, lane, .. } => affine_plane(
                    &shards,
                    lane@,
                    name,
                    self.stored(name),
                    dims,
                ),
                Store::Ternary { shards, .. } => match plane_of(&shards, name, self.stored(name), dims, 0) {
                    Ok((w, _)) => Ok(Held { ty: w.ty, bytes: w.buffer.len }),
                    Err(f) => Err(f),
                },
                Store::Packed { tensors, formats } => match packed_at(tensors@, name, 0) {
                    None => Err(Fault::Missing),
                    Some(i) => match packed_plane(tensors[i].tensor, name, dims, 0, formats) {
                        Ok(w) => Ok(Held { ty: w.ty, bytes: w.buffer.len }),
                        Err(f) => Err(f),
                    },
                },
            }
        }
    }

    /// Stored tensors that the machine can address.
    pub open spec fn sized(&self) -> bool {
        match self.store {
            Store::Affine { shards, .. } => tensors_sized(shards.tensors@),
            Store::Ternary { shards, .. } => tensors_sized(shards.tensors@),
            _ => true,
        }
    }

    fn table(&self, name: &str) -> (r: Option<usize>)
        ensures
            match r {
                Some(i) => i < self.names.len() && table_name(self.names@, name@, 0) == Some(
                    self.names[i as int].mapped@,
                ),
                None => table_name(self.names@, name@, 0) is None,
            },
    {
        let mut i: usize = 0;
        while i < self.names.len()
            invariant
                i <= self.names.len(),
                table_name(self.names@, name@, 0) == table_name(self.names@, name@, i as int),
            decreases self.names.len() - i,
        {
            if is_named(&self.names[i].plane, name) {
                return Some(i);
            }
            i = i + 1;
        }
        None
    }

    /// What a plane is called in this directory.
    pub fn stored_text(&self, name: &str) -> (r: Option<String>)
        ensures
            match r {
                Some(s) => self.stored(name@) == Some(s@),
                None => self.stored(name@) is None,
            },
    {
        match self.table(name) {
            Some(i) => hf_name(name, Some(self.names[i].mapped.as_str())),
            None => hf_name(name, None),
        }
    }

    fn affine(&self, shards: &Shards<'a>, lane: &Vec<Option<Held>>, name: &str, dims: &Vec<u64>) -> (r: Result<
        Held,
        Fault,
    >)
        requires
            sided(name@, dims@),
            tensors_sized(shards.tensors@),
        ensures
            r == affine_plane(shards, lane@, name@, self.stored(name@), dims@),
    {
        let stored = match self.stored_text(name) {
            Some(s) => s,
            None => {
                return Err(Fault::Missing);
            },
        };
        proof {
            lemma_stored_at(shards.tensors@, stored@, 0);
        }
        match plan_affine(shards, name, stored.as_str(), dims) {
            Err(MetalError::Model(f)) => Err(f),
            Err(MetalError::Memory(f)) => Err(f),
            Ok(Plan::Affine { .. }) => match shards.find(stored.as_str()) {
                None => Err(Fault::Missing),
                Some(i) => if i < lane.len() {
                    match lane[i] {
                        Some(h) => Ok(h),
                        None => Err(Fault::Shape),
                    }
                } else {
                    Err(Fault::Shape)
                },
            },
            Ok(Plan::Small { count, .. }) => Ok(Held { ty: 0, bytes: count * 4 }),
        }
    }

    fn ternary(&self, shards: &Shards<'a>, name: &str, dims: &Vec<u64>) -> (r: Result<Held, Fault>)
        requires
            sided(name@, dims@),
            tensors_sized(shards.tensors@),
        ensures
            r == match plane_of(shards, name@, self.stored(name@), dims@, 0) {
                Ok((w, _)) => Ok::<Held, Fault>(Held { ty: w.ty, bytes: w.buffer.len }),
                Err(f) => Err(f),
            },
    {
        let at = self.table(name);
        let found = match at {
            Some(i) => load_weight(shards, name, Some(self.names[i].mapped.as_str()), dims, 0),
            None => load_weight(shards, name, None, dims, 0),
        };
        match found {
            Ok((w, _)) => Ok(Held { ty: w.ty, bytes: w.buffer.len }),
            Err(MetalError::Model(f)) => Err(f),
            Err(MetalError::Memory(f)) => Err(f),
        }
    }

    fn find_plane(&self, name: &str, dims: &Vec<u64>) -> (r: Result<Held, Fault>)
        requires
            self.sized(),
        ensures
            r == self.plane(name@, dims@),
    {
        if dims.len() == 0 {
            return Err(Fault::Shape);
        }
        if dims.len() < 2 {
            let plane = name.to_owned();
            if has_end(name, "ssm_conv1d.weight") || is_named(&plane, "selector_predecessor.weight")
                || is_named(&plane, "selector_successor.weight") {
                return Err(Fault::Shape);
            }
        }
        match &self.store {
            Store::Mapped { .. } => match self.header.find_tensor(name) {
                None => Err(Fault::Missing),
                Some(i) => {
                    let t = &self.header.tensors[i];
                    if same_dims(&t.dims, dims) {
                        Ok(Held { ty: t.ty, bytes: t.bytes })
                    } else {
                        Err(Fault::Shape)
                    }
                },
            },
            Store::Affine { shards, lane, .. } => self.affine(shards, lane, name, dims),
            Store::Ternary { shards, .. } => self.ternary(shards, name, dims),
            Store::Packed { tensors, formats } => match find_packed(tensors, name) {
                None => Err(Fault::Missing),
                Some(i) => match splash_weight(&tensors[i].tensor, name, dims, 0, *formats) {
                    Ok(w) => Ok(Held { ty: w.ty, bytes: w.buffer.len }),
                    Err(MetalError::Model(f)) => Err(f),
                    Err(MetalError::Memory(f)) => Err(f),
                },
            },
        }
    }

    /// The plane of a name with these sides, as allocation `id`.
    pub fn load(&self, name: &str, dims: &Vec<u64>, id: u32) -> (r: Result<Weight, MetalError>)
        requires
            self.sized(),
        ensures
            r == match self.plane(name@, dims@) {
                Ok(h) => Ok::<Weight, MetalError>(resident(h, dims@, id)),
                Err(f) => Err(MetalError::Model(f)),
            },
    {
        match self.find_plane(name, dims) {
            Ok(h) => Ok(
                Weight {
                    buffer: Buffer { id, len: h.bytes },
                    ty: h.ty,
                    k: dims[0] as usize,
                    n: if dims.len() > 1 { dims[1] as usize } else { 1 },
                },
            ),
            Err(f) => Err(MetalError::Model(f)),
        }
    }
}

pub open spec fn tensors_sized(tensors: Seq<Stored>) -> bool {
    forall|i: int| 0 <= i < tensors.len() ==> (#[trigger] tensors[i]).data@.len() <= 0x7fff_ffff_ffff_ffff
}

/// A resident plane of these sides.
pub open spec fn resident(h: Held, dims: Seq<u64>, id: u32) -> Weight {
    Weight {
        buffer: Buffer { id, len: h.bytes },
        ty: h.ty,
        k: dims[0] as usize,
        n: outputs(dims) as usize,
    }
}

/// The store has the plane that is expected, in the expected format where
/// there is one.
pub open spec fn supplies(src: &Source, e: Expected) -> bool {
    src.plane(e.name, e.dims) matches Ok(h) && (e.ty == ANY_FORMAT || h.ty == e.ty)
}

/// The first expectation from `n` on that the store does not meet.
pub open spec fn first_lack(src: &Source, list: Seq<Expected>, n: int) -> Option<int>
    decreases list.len() - n,
{
    if n >= list.len() {
        None
    } else if !supplies(src, list[n]) {
        Some(n)
    } else {
        first_lack(src, list, n + 1)
    }
}

/// The planes of a list, uploaded in order, the first as allocation zero.
pub open spec fn planes(src: &Source, list: Seq<Expected>) -> Seq<Weight> {
    Seq::new(
        list.len(),
        |j: int| resident(src.plane(list[j].name, list[j].dims)->Ok_0, list[j].dims, j as u32),
    )
}

/// Bytes of the first `n` planes.
pub open spec fn plane_bytes(list: Seq<Weight>, n: int) -> int
    decreases n,
{
    if n <= 0 {
        0
    } else {
        plane_bytes(list, n - 1) + list[n - 1].buffer.len
    }
}

impl<'a> Source<'a> {
    /// Every plane of a list in order, with their bytes, or the first that the
    /// store does not have.
    pub fn load_all(&self, list: &Vec<Entry>) -> (r: Result<(Vec<Weight>, u128), MetalError>)
        requires
            self.sized(),
            list.len() <= u32::MAX,
        ensures
            match first_lack(self, schema(list@), 0) {
                Some(i) => r == Err::<(Vec<Weight>, u128), MetalError>(
                    MetalError::Model(Fault::Tensor { index: i as usize }),
                ),
                None => {
                    &&& r matches Ok((w, n))
                    &&& w@ == planes(self, schema(list@))
                    &&& n == plane_bytes(w@, w.len() as int)
                },
            },
    {
        let ghost want = schema(list@);
        let mut out: Vec<Weight> = Vec::new();
        let mut total: u128 = 0;
        let mut i: usize = 0;
        while i < list.len()
            invariant
                i <= list.len() <= u32::MAX,
                self.sized(),
                want == schema(list@),
                first_lack(self, want, 0) == first_lack(self, want, i as int),
                out@ == planes(self, want).take(i as int),
                total == plane_bytes(planes(self, want), i as int),
                total <= i * 0xffff_ffff_ffff_ffff,
            decreases list.len() - i,
        {
            let e = &list[i];
            assert(want[i as int] == list[i as int]@);
            match self.load(e.name.as_str(), &e.dims, i as u32) {
                Ok(w) => {
                    if e.ty != ANY_FORMAT && w.ty != e.ty {
                        return Err(MetalError::Model(Fault::Tensor { index: i }));
                    }
                    total = total + w.buffer.len as u128;
                    out.push(w);
                    assert(out@ =~= planes(self, want).take(i + 1));
                },
                Err(_) => {
                    return Err(MetalError::Model(Fault::Tensor { index: i }));
                },
            }
            i = i + 1;
        }
        assert(planes(self, want).take(list.len() as int) =~= planes(self, want));
        Ok((out, total))
    }
}

proof fn lemma_no_lack(src: &Source, list: Seq<Expected>, n: int, j: int)
    requires
        first_lack(src, list, n) is None,
        0 <= n <= j < list.len(),
    ensures
        supplies(src, list[j]),
    decreases j - n,
{
    if n < j {
        lemma_no_lack(src, list, n + 1, j);
    }
}

/// The planes of a list that a store meets are those that it has under their
/// names: the mapped tensor, the codes and scales or the full-precision tensor
/// of a ternary directory, the affine matrix or the widened small tensor of an
/// affine one, or the packed tensor.
pub proof fn planes_are_what_is_stored(src: &Source, list: Seq<Expected>, j: int)
    requires
        first_lack(src, list, 0) is None,
        0 <= j < list.len(),
    ensures
        ({
            let e = list[j];
            let w = planes(src, list)[j];
            &&& e.ty == ANY_FORMAT || w.ty == e.ty
            &&& match src.store {
                Store::Mapped { .. } => src.header.tensor(e.name) matches Some(t) && t.dims@ == e.dims
                    && w == placed(&src.header, list, j),
                Store::Ternary { shards, .. } => plane_of(
                    &shards,
                    e.name,
                    src.stored(e.name),
                    e.dims,
                    j as u32,
                ) matches Ok((p, _)) && w == p,
                Store::Affine { shards, lane, .. } => affine_plane(
                    &shards,
                    lane@,
                    e.name,
                    src.stored(e.name),
                    e.dims,
                ) matches Ok(h) && w == resident(h, e.dims, j as u32),
                Store::Packed { tensors, formats } => packed_at(tensors@, e.name, 0) matches Some(i)
                    && packed_plane(tensors[i].tensor, e.name, e.dims, j as u32, formats) matches Ok(p)
                    && w == p,
            }
        }),
{
    lemma_no_lack(src, list, 0, j);
}

} // verus!
