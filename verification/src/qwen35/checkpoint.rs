//! Storage adapters: names, shapes and formats of a decoder's planes. Stored
//! values are never requantised.
use vstd::prelude::*;
use crate::arith::{ceil_div, div_ceil};
use crate::error::{Fault, MetalError};
use crate::header::{is_named, occurs, occurs_at, same_dims};
use crate::program::{kernel, list2, list3, Buffer, Program, Step, Weight};

verus! {

/// Element types of stored tensors.
#[derive(Clone, Copy, Debug, PartialEq, Eq, Structural)]
pub enum Dtype {
    U32,
    F16,
    Bf16,
    F32,
    Other,
}

/// One stored tensor and its bytes.
#[derive(Debug)]
pub struct Stored<'a> {
    pub name: String,
    pub dtype: Dtype,
    pub shape: Vec<u64>,
    pub data: &'a [u8],
}

/// A set of stored tensors.
#[derive(Debug)]
pub struct Shards<'a> {
    pub tensors: Vec<Stored<'a>>,
}

/// The place of the first tensor called `name` from `i` on.
pub open spec fn stored_at(tensors: Seq<Stored>, name: Seq<char>, i: int) -> Option<int>
    decreases tensors.len() - i,
{
    if i >= tensors.len() {
        None
    } else if tensors[i].name@ == name {
        Some(i)
    } else {
        stored_at(tensors, name, i + 1)
    }
}

/// A place that is found is a place of the list.
pub proof fn lemma_stored_at(tensors: Seq<Stored>, name: Seq<char>, i: int)
    requires
        0 <= i,
    ensures
        stored_at(tensors, name, i) matches Some(k) ==> i <= k < tensors.len(),
    decreases tensors.len() - i,
{
    if i < tensors.len() {
        lemma_stored_at(tensors, name, i + 1);
    }
}

impl<'a> Shards<'a> {
    pub open spec fn get(&self, name: Seq<char>) -> Option<Stored<'a>> {
        match stored_at(self.tensors@, name, 0) {
            Some(i) => Some(self.tensors[i]),
            None => None,
        }
    }

    pub fn find(&self, name: &str) -> (r: Option<usize>)
        ensures
            match r {
                Some(i) => i < self.tensors.len() && stored_at(self.tensors@, name@, 0) == Some(i as int),
                None => stored_at(self.tensors@, name@, 0) is None,
            },
    {
        let mut i: usize = 0;
        while i < self.tensors.len()
            invariant
                i <= self.tensors.len(),
                stored_at(self.tensors@, name@, 0) == stored_at(self.tensors@, name@, i as int),
            decreases self.tensors.len() - i,
        {
            if is_named(&self.tensors[i].name, name) {
                return Some(i);
            }
            i = i + 1;
        }
        None
    }

    /// The bytes of a tensor of this type and shape.
    pub open spec fn typed(&self, name: Seq<char>, dtype: Dtype, shape: Seq<u64>) -> Option<Seq<u8>> {
        match self.get(name) {
            Some(t) => if t.dtype == dtype && t.shape@ == shape { Some(t.data@) } else { None },
            None => None,
        }
    }

    pub fn bytes(&self, name: &str, dtype: Dtype, shape: &Vec<u64>) -> (r: Option<&'a [u8]>)
        ensures
            match r {
                Some(b) => self.typed(name@, dtype, shape@) == Some(b@),
                None => self.typed(name@, dtype, shape@) is None,
            },
    {
        match self.find(name) {
            None => None,
            Some(i) => {
                let t = &self.tensors[i];
                if t.dtype == dtype && same_dims(&t.shape, shape) {
                    Some(t.data)
                } else {
                    None
                }
            },
        }
    }
}

/// `s` ends in `part`.
pub open spec fn ends_in(s: Seq<char>, part: Seq<char>) -> bool {
    occurs(s, part, s.len() - part.len())
}

pub fn has_end(s: &str, part: &str) -> (r: bool)
    ensures
        r == ends_in(s@, part@),
{
    let n: usize = s.unicode_len();
    let m: usize = part.unicode_len();
    if m > n {
        return false;
    }
    occurs_at(s, part, n - m)
}

fn same_text(a: &str, b: &str) -> (r: bool)
    ensures
        r == (a@ == b@),
{
    let s = a.to_owned();
    is_named(&s, b)
}

/// The stored name of a plane. `mapped` is what the family's name table gives
/// for it; the language model has its own prefix here.
pub open spec fn stored_name(name: Seq<char>, mapped: Option<Seq<char>>) -> Option<Seq<char>> {
    if name == "token_embd.weight"@ {
        Some("language_model.model.embed_tokens.weight"@)
    } else if name == "output_norm.weight"@ {
        Some("language_model.model.norm.weight"@)
    } else if name == "output.weight"@ {
        Some("language_model.lm_head.weight"@)
    } else {
        match mapped {
            None => None,
            Some(n) => {
                let prefix = "model.language_model."@;
                if occurs(n, prefix, 0) {
                    Some("language_model.model."@ + n.skip(prefix.len() as int))
                } else {
                    None
                }
            },
        }
    }
}

pub fn hf_name(name: &str, mapped: Option<&str>) -> (r: Option<String>)
    ensures
        match r {
            Some(s) => stored_name(
                name@,
                match mapped {
                    Some(n) => Some(n@),
                    None => None,
                },
            ) == Some(s@),
            None => stored_name(
                name@,
                match mapped {
                    Some(n) => Some(n@),
                    None => None,
                },
            ) is None,
        },
{
    if same_text(name, "token_embd.weight") {
        return Some("language_model.model.embed_tokens.weight".to_owned());
    }
    if same_text(name, "output_norm.weight") {
        return Some("language_model.model.norm.weight".to_owned());
    }
    if same_text(name, "output.weight") {
        return Some("language_model.lm_head.weight".to_owned());
    }
    match mapped {
        None => None,
        Some(n) => {
            let prefix = "model.language_model.";
            if occurs_at(n, prefix, 0) {
                let m: usize = prefix.unicode_len();
                let len: usize = n.unicode_len();
                let mut out = "language_model.model.".to_owned();
                out.append(n.substring_char(m, len));
                Some(out)
            } else {
                None
            }
        },
    }
}

/// Stored shapes run from the slowest dimension; a convolution keeps a
/// trailing one.
pub open spec fn stored_shape(name: Seq<char>, dims: Seq<u64>) -> Seq<u64> {
    if ends_in(name, "ssm_conv1d.weight"@) {
        seq![dims[1], dims[0], 1u64]
    } else {
        dims.reverse()
    }
}

pub fn small_shape(name: &str, dims: &Vec<u64>) -> (r: Vec<u64>)
    requires
        ends_in(name@, "ssm_conv1d.weight"@) ==> dims.len() >= 2,
    ensures
        r@ == stored_shape(name@, dims@),
{
    if has_end(name, "ssm_conv1d.weight") {
        return list3(dims[1], dims[0], 1);
    }
    let mut out: Vec<u64> = Vec::new();
    let mut i: usize = dims.len();
    while i > 0
        invariant
            i <= dims.len(),
            out.len() == dims.len() - i,
            forall|j: int| 0 <= j < out.len() ==> out[j] == dims[dims.len() - 1 - j],
        decreases i,
    {
        i = i - 1;
        out.push(dims[i]);
    }
    assert(out@ =~= dims@.reverse());
    out
}

/// How a plane of a sanitised affine checkpoint becomes resident.
#[derive(Clone, Copy, Debug, PartialEq, Eq, Structural)]
pub enum Plan {
    /// Through the affine lane, as it is stored.
    Affine { k: u64, n: u64 },
    /// A small plane: this many half-precision values are widened. The
    /// recurrent decay is marked for the kernel.
    Small { count: u64, decay: bool, k: u64, n: u64 },
}

/// The output side of a plane.
pub open spec fn outputs(dims: Seq<u64>) -> u64 {
    if dims.len() > 1 { dims[1] } else { 1 }
}

pub open spec fn is_matrix(name: Seq<char>, dims: Seq<u64>) -> bool {
    dims.len() == 2 && !ends_in(name, "ssm_conv1d.weight"@)
}

/// Plan a plane of an affine checkpoint, or say what is wrong with it.
pub fn plan_affine(source: &Shards, name: &str, stored: &str, dims: &Vec<u64>) -> (r: Result<Plan, MetalError>)
    requires
        dims.len() > 0,
        ends_in(name@, "ssm_conv1d.weight"@) ==> dims.len() >= 2,
    ensures
        match source.get(stored@) {
            None => r == Err::<Plan, MetalError>(MetalError::Model(Fault::Missing)),
            Some(t) => if is_matrix(name@, dims@) {
                r == Ok::<Plan, MetalError>(Plan::Affine { k: dims[0], n: dims[1] })
            } else if t.dtype != Dtype::Bf16 || t.shape@ != stored_shape(name@, dims@) {
                r == Err::<Plan, MetalError>(MetalError::Model(Fault::Shape))
            } else {
                r == Ok::<Plan, MetalError>(
                    Plan::Small {
                        count: (t.data@.len() / 2) as u64,
                        decay: ends_in(name@, "ssm_a"@),
                        k: dims[0],
                        n: outputs(dims@),
                    },
                )
            },
        },
{
    match source.find(stored) {
        None => Err(MetalError::Model(Fault::Missing)),
        Some(i) => {
            let t = &source.tensors[i];
            if dims.len() == 2 && !has_end(name, "ssm_conv1d.weight") {
                return Ok(Plan::Affine { k: dims[0], n: dims[1] });
            }
            let shape = small_shape(name, dims);
            if t.dtype != Dtype::Bf16 || !same_dims(&t.shape, &shape) {
                return Err(MetalError::Model(Fault::Shape));
            }
            let count: usize = t.data.len() / 2;
            Ok(
                Plan::Small {
                    count: count as u64,
                    decay: has_end(name, "ssm_a"),
                    k: dims[0],
                    n: if dims.len() > 1 { dims[1] } else { 1 },
                },
            )
        },
    }
}

/// Widen a small plane on the device.
pub open spec fn widen_step(input: Buffer, out: Buffer, count: int, decay: bool) -> Step {
    kernel(
        "mlx_small"@,
        seq![input, out],
        seq![count as u32, if decay { 1u32 } else { 0 }],
        (ceil_div(count, 256), 1, 1),
        256,
    )
}

pub fn widen(cmd: &mut Program, input: Buffer, out: Buffer, count: usize, decay: bool)
    ensures
        final(cmd)@ == old(cmd)@.push(widen_step(input, out, count as int, decay)),
{
    cmd.dispatch(
        "mlx_small",
        list2(input, out),
        list2(count as u32, if decay { 1 } else { 0 }),
        (div_ceil(count, 256), 1, 1),
        256,
    );
}

/// One tensor of a packed checkpoint.
#[derive(Debug)]
pub struct PackedTensor {
    pub dims: Vec<u64>,
    /// Stored as affine codes.
    pub affine: bool,
    /// Bytes in half precision, where it is stored so.
    pub half: Option<u64>,
    /// Bytes in storage tiles, and as they are.
    pub tiled: u64,
    pub native: u64,
}

/// Format codes of the affine and of the packed lane.
#[derive(Clone, Copy, Debug, PartialEq, Eq, Structural)]
pub struct Formats {
    pub affine4: u32,
    pub packed4: u32,
}

pub open spec fn selects(name: Seq<char>) -> bool {
    name == "selector_predecessor.weight"@ || name == "selector_successor.weight"@
}

/// The resident plane of a packed tensor: the selector stays in half
/// precision, affine codes are tiled except for the embedding.
pub open spec fn packed_plane(t: PackedTensor, name: Seq<char>, dims: Seq<u64>, id: u32, f: Formats) -> Result<
    Weight,
    Fault,
> {
    let packed = t.affine && name != "token_embd.weight"@;
    if t.dims@ != dims {
        Err(Fault::Shape)
    } else if selects(name) {
        match t.half {
            None => Err(Fault::Selector),
            Some(bytes) => Ok(
                Weight {
                    buffer: Buffer { id, len: bytes },
                    ty: 30,
                    k: dims[0] as usize,
                    n: dims[1] as usize,
                },
            ),
        }
    } else {
        Ok(
            Weight {
                buffer: Buffer { id, len: if packed { t.tiled } else { t.native } },
                ty: if packed {
                    f.packed4
                } else if t.affine {
                    f.affine4
                } else {
                    0
                },
                k: dims[0] as usize,
                n: outputs(dims) as usize,
            },
        )
    }
}

pub fn splash_weight(t: &PackedTensor, name: &str, dims: &Vec<u64>, id: u32, f: Formats) -> (r: Result<
    Weight,
    MetalError,
>)
    requires
        dims.len() > 0,
        selects(name@) ==> dims.len() >= 2,
    ensures
        r == match packed_plane(*t, name@, dims@, id, f) {
            Ok(w) => Ok::<Weight, MetalError>(w),
            Err(e) => Err(MetalError::Model(e)),
        },
{
    if !same_dims(&t.dims, dims) {
        return Err(MetalError::Model(Fault::Shape));
    }
    if same_text(name, "selector_predecessor.weight") || same_text(name, "selector_successor.weight") {
        return match t.half {
            None => Err(MetalError::Model(Fault::Selector)),
            Some(bytes) => Ok(
                Weight {
                    buffer: Buffer { id, len: bytes },
                    ty: 30,
                    k: dims[0] as usize,
                    n: dims[1] as usize,
                },
            ),
        };
    }
    let packed = t.affine && !same_text(name, "token_embd.weight");
    Ok(
        Weight {
            buffer: Buffer { id, len: if packed { t.tiled } else { t.native } },
            ty: if packed {
                f.packed4
            } else if t.affine {
                f.affine4
            } else {
                0
            },
            k: dims[0] as usize,
            n: if dims.len() > 1 { dims[1] as usize } else { 1 },
        },
    )
}

} // verus!
