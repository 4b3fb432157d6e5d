//! Native ternary storage: two-bit codes, half-precision scales and sign
//! vectors. A fourth level is refused, never decoded.
use vstd::prelude::*;
use crate::arith::{ceil_div, div_ceil};
use crate::error::{Fault, MetalError};
use crate::header::{contains_part, has_part};
use crate::program::{kernel, list1, list2, Buffer, Program, Step, Weight};
use crate::qwen35::bonsai::AFFINE2;
use crate::qwen35::checkpoint::{
    ends_in, has_end, hf_name, lemma_stored_at, outputs, small_shape, stored_name, stored_shape, Dtype, Shards, Stored,
};

verus! {

/// The little-endian word at place `i`.
pub open spec fn word(b: Seq<u8>, i: int) -> u32 {
    (b[4 * i] + 256 * b[4 * i + 1] + 65536 * b[4 * i + 2] + 16777216 * b[4 * i + 3]) as u32
}

/// The little-endian half word at place `i`.
pub open spec fn half_word(b: Seq<u8>, i: int) -> u16 {
    (b[2 * i] + 256 * b[2 * i + 1]) as u16
}

pub fn word_at(b: &[u8], i: usize) -> (r: u32)
    requires
        4 * i + 4 <= b@.len(),
    ensures
        r == word(b@, i as int),
{
    let n: usize = b.len();
    assert(4 * i + 4 <= n);
    let at: usize = 4 * i;
    b[at] as u32 + 256 * b[at + 1] as u32 + 65536 * b[at + 2] as u32 + 16777216 * b[at + 3] as u32
}

pub fn half_at(b: &[u8], i: usize) -> (r: u16)
    requires
        2 * i + 2 <= b@.len(),
    ensures
        r == half_word(b@, i as int),
{
    let n: usize = b.len();
    assert(2 * i + 2 <= n);
    let at: usize = 2 * i;
    b[at] as u16 + 256 * b[at + 1] as u16
}

/// The two-bit code at place `j` of a word.
pub open spec fn code(w: u32, j: u32) -> u32 {
    (w >> ((2 * j) as u32)) & 3
}

/// No code of the word is the fourth level.
pub open spec fn is_ternary(w: u32) -> bool {
    forall|j: u32| j < 16 ==> #[trigger] code(w, j) != 3
}

proof fn lemma_code(w: u32, j: u32)
    requires
        j < 16,
    ensures
        w & (w >> 1) & 0x5555_5555 == 0 ==> code(w, j) != 3,
{
    assert(j < 16 && w & (w >> 1) & 0x5555_5555 == 0 ==> (w >> ((2 * j) as u32)) & 3 != 3) by (bit_vector);
}

proof fn lemma_some_code(w: u32)
    requires
        w & (w >> 1) & 0x5555_5555 != 0,
    ensures
        !is_ternary(w),
{
    assert(w & (w >> 1) & 0x5555_5555 != 0 ==> {
        ||| (w >> 0) & 3 == 3
        ||| (w >> 2) & 3 == 3
        ||| (w >> 4) & 3 == 3
        ||| (w >> 6) & 3 == 3
        ||| (w >> 8) & 3 == 3
        ||| (w >> 10) & 3 == 3
        ||| (w >> 12) & 3 == 3
        ||| (w >> 14) & 3 == 3
        ||| (w >> 16) & 3 == 3
        ||| (w >> 18) & 3 == 3
        ||| (w >> 20) & 3 == 3
        ||| (w >> 22) & 3 == 3
        ||| (w >> 24) & 3 == 3
        ||| (w >> 26) & 3 == 3
        ||| (w >> 28) & 3 == 3
        ||| (w >> 30) & 3 == 3
    }) by (bit_vector);
    assert(code(w, 0) == (w >> 0u32) & 3);
    assert(code(w, 1) == (w >> 2u32) & 3);
    assert(code(w, 2) == (w >> 4u32) & 3);
    assert(code(w, 3) == (w >> 6u32) & 3);
    assert(code(w, 4) == (w >> 8u32) & 3);
    assert(code(w, 5) == (w >> 10u32) & 3);
    assert(code(w, 6) == (w >> 12u32) & 3);
    assert(code(w, 7) == (w >> 14u32) & 3);
    assert(code(w, 8) == (w >> 16u32) & 3);
    assert(code(w, 9) == (w >> 18u32) & 3);
    assert(code(w, 10) == (w >> 20u32) & 3);
    assert(code(w, 11) == (w >> 22u32) & 3);
    assert(code(w, 12) == (w >> 24u32) & 3);
    assert(code(w, 13) == (w >> 26u32) & 3);
    assert(code(w, 14) == (w >> 28u32) & 3);
    assert(code(w, 15) == (w >> 30u32) & 3);
}

/// Whether a word holds ternary codes only.
pub fn ternary_word(w: u32) -> (r: bool)
    ensures
        r == is_ternary(w),
{
    if w & (w >> 1) & 0x5555_5555 != 0 {
        proof {
            lemma_some_code(w);
        }
        false
    } else {
        proof {
            assert forall|j: u32| j < 16 implies #[trigger] code(w, j) != 3 by {
                lemma_code(w, j);
            }
        }
        true
    }
}

/// A packed module: its name below the language model, its input width and
/// the sign vector of that width, as bit patterns.
#[derive(Debug)]
pub struct Module {
    pub name: String,
    pub width: usize,
    pub signs: Vec<u32>,
}

pub open spec fn part_name(m: Module, part: Seq<char>) -> Seq<char> {
    "language_model."@ + m.name@ + part
}

fn part_text(m: &Module, part: &str) -> (r: String)
    ensures
        r@ == part_name(*m, part@),
{
    let mut s = "language_model.".to_owned();
    s.append(m.name.as_str());
    s.append(part);
    s
}

/// Two single-precision bit patterns of one number: zeros of either sign are
/// one, and an undefined number is none.
pub open spec fn same_number(a: u32, b: u32) -> bool {
    &&& a & 0x7fff_ffff <= 0x7f80_0000
    &&& b & 0x7fff_ffff <= 0x7f80_0000
    &&& a == b || (a & 0x7fff_ffff == 0 && b & 0x7fff_ffff == 0)
}

fn are_same(a: u32, b: u32) -> (r: bool)
    ensures
        r == same_number(a, b),
{
    a & 0x7fff_ffff <= 0x7f80_0000 && b & 0x7fff_ffff <= 0x7f80_0000 && (a == b || (a & 0x7fff_ffff == 0
        && b & 0x7fff_ffff == 0))
}

/// Sign vectors agree as far as both go.
pub open spec fn signs_agree(data: Seq<u8>, want: Seq<u32>) -> bool {
    forall|i: int|
        0 <= i < want.len() && 4 * i + 4 <= data.len() ==> same_number(
            word(data, i),
            #[trigger] want[i],
        )
}

fn check_signs(data: &[u8], want: &Vec<u32>) -> (r: bool)
    ensures
        r == signs_agree(data@, want@),
{
    let n: usize = data.len() / 4;
    let mut i: usize = 0;
    while i < n && i < want.len()
        invariant
            i <= n,
            i <= want.len(),
            n == data@.len() / 4,
            forall|j: int| 0 <= j < i ==> same_number(word(data@, j), #[trigger] want[j]),
        decreases n - i,
    {
        if !are_same(word_at(data, i), want[i]) {
            assert(want@[i as int] == want[i as int]);
            return false;
        }
        i = i + 1;
    }
    true
}

pub open spec fn all_ternary(data: Seq<u8>) -> bool {
    forall|i: int| 0 <= i < data.len() / 4 ==> is_ternary(#[trigger] word(data, i))
}

fn check_codes(data: &[u8]) -> (r: bool)
    ensures
        r == all_ternary(data@),
{
    let n: usize = data.len() / 4;
    let mut i: usize = 0;
    while i < n
        invariant
            i <= n,
            n == data@.len() / 4,
            forall|j: int| 0 <= j < i ==> is_ternary(#[trigger] word(data@, j)),
        decreases n - i,
    {
        let w: u32 = word_at(data, i);
        if !ternary_word(w) {
            assert(!is_ternary(word(data@, i as int)));
            return false;
        }
        i = i + 1;
    }
    true
}

/// A finite scale and a bias that is its negation, as half-precision bits.
pub open spec fn centred(s: u16, b: u16) -> bool {
    s & 0x7c00 != 0x7c00 && b == s ^ 0x8000
}

pub open spec fn all_centred(scales: Seq<u8>, biases: Seq<u8>) -> bool {
    forall|i: int|
        0 <= i && 2 * i + 2 <= scales.len() && 2 * i + 2 <= biases.len() ==> centred(
            #[trigger] half_word(scales, i),
            half_word(biases, i),
        )
}

fn check_scales(scales: &[u8], biases: &[u8]) -> (r: bool)
    ensures
        r == all_centred(scales@, biases@),
{
    let a: usize = scales.len() / 2;
    let b: usize = biases.len() / 2;
    let n: usize = if a < b { a } else { b };
    let mut i: usize = 0;
    while i < n
        invariant
            i <= n,
            n <= scales@.len() / 2,
            n <= biases@.len() / 2,
            n == scales@.len() / 2 || n == biases@.len() / 2,
            forall|j: int|
                0 <= j < i ==> centred(#[trigger] half_word(scales@, j), half_word(biases@, j)),
        decreases n - i,
    {
        let s: u16 = half_at(scales, i);
        let t: u16 = half_at(biases, i);
        if s & 0x7c00 == 0x7c00 || t != s ^ 0x8000 {
            assert(!centred(half_word(scales@, i as int), half_word(biases@, i as int)));
            return false;
        }
        i = i + 1;
    }
    true
}

/// The code tensor of a module: a matrix of words, sixteen codes each.
pub open spec fn packed_codes<'a>(source: &Shards<'a>, m: Module) -> Option<Stored<'a>> {
    match source.get(part_name(m, ".weight"@)) {
        Some(t) => if t.dtype == Dtype::U32 && t.shape.len() == 2 && t.shape[1] == m.width as int / 16 {
            Some(t)
        } else {
            None
        },
        None => None,
    }
}

/// What is wrong with the module at place `i`.
pub open spec fn module_fault(source: &Shards, m: Module, i: usize) -> Option<Fault> {
    match source.typed(part_name(m, ".signs"@), Dtype::F32, seq![m.width as u64]) {
        None => Some(Fault::Signs { index: i }),
        Some(signs) => if !signs_agree(signs, m.signs@) {
            Some(Fault::Signs { index: i })
        } else {
            match packed_codes(source, m) {
                None => Some(Fault::Codes { index: i }),
                Some(t) => {
                    let shape = seq![t.shape[0], (m.width as int / 128) as u64];
                    let scales = source.typed(part_name(m, ".scales"@), Dtype::F16, shape);
                    let biases = source.typed(part_name(m, ".biases"@), Dtype::F16, shape);
                    if !all_ternary(t.data@) {
                        Some(Fault::Codes { index: i })
                    } else if scales is None || biases is None || !all_centred(scales->0, biases->0) {
                        Some(Fault::Scales { index: i })
                    } else {
                        None
                    }
                },
            }
        },
    }
}

/// The first fault from module `i` on.
pub open spec fn first_fault(source: &Shards, modules: Seq<Module>, i: int) -> Option<Fault>
    decreases modules.len() - i,
{
    if i >= modules.len() {
        None
    } else if module_fault(source, modules[i], i as usize) is Some {
        module_fault(source, modules[i], i as usize)
    } else {
        first_fault(source, modules, i + 1)
    }
}

pub open spec fn any_nextn(tensors: Seq<Stored>) -> bool {
    exists|i: int| 0 <= i < tensors.len() && has_part((#[trigger] tensors[i]).name@, "mtp."@)
}

fn check_module(source: &Shards, m: &Module, i: usize) -> (r: Option<Fault>)
    ensures
        r == module_fault(source, *m, i),
{
    let name = part_text(m, ".signs");
    match source.bytes(name.as_str(), Dtype::F32, &list1(m.width as u64)) {
        None => {
            return Some(Fault::Signs { index: i });
        },
        Some(signs) => {
            if !check_signs(signs, &m.signs) {
                return Some(Fault::Signs { index: i });
            }
        },
    }
    let name = part_text(m, ".weight");
    match source.find(name.as_str()) {
        None => Some(Fault::Codes { index: i }),
        Some(k) => {
            let t = &source.tensors[k];
            if t.dtype != Dtype::U32 || t.shape.len() != 2 || t.shape[1] != (m.width / 16) as u64 {
                return Some(Fault::Codes { index: i });
            }
            if !check_codes(t.data) {
                return Some(Fault::Codes { index: i });
            }
            let shape = list2(t.shape[0], (m.width / 128) as u64);
            let name = part_text(m, ".scales");
            let scales = source.bytes(name.as_str(), Dtype::F16, &shape);
            let name = part_text(m, ".biases");
            let biases = source.bytes(name.as_str(), Dtype::F16, &shape);
            match (scales, biases) {
                (Some(s), Some(b)) => if check_scales(s, b) {
                    None
                } else {
                    Some(Fault::Scales { index: i })
                },
                _ => Some(Fault::Scales { index: i }),
            }
        },
    }
}

/// Accept a ternary checkpoint: no next-token tensors, signs as configured,
/// three levels only, and biases that add nothing to the scales.
pub fn validate_tensors(source: &Shards, modules: &Vec<Module>) -> (r: Result<(), MetalError>)
    ensures
        r == if any_nextn(source.tensors@) {
            Err::<(), MetalError>(MetalError::Model(Fault::Foreign))
        } else {
            match first_fault(source, modules@, 0) {
                Some(f) => Err::<(), MetalError>(MetalError::Model(f)),
                None => Ok(()),
            }
        },
{
    let mut k: usize = 0;
    while k < source.tensors.len()
        invariant
            k <= source.tensors.len(),
            forall|j: int| 0 <= j < k ==> !has_part((#[trigger] source.tensors[j]).name@, "mtp."@),
        decreases source.tensors.len() - k,
    {
        if contains_part(source.tensors[k].name.as_str(), "mtp.") {
            return Err(MetalError::Model(Fault::Foreign));
        }
        k = k + 1;
    }
    let mut i: usize = 0;
    while i < modules.len()
        invariant
            i <= modules.len(),
            !any_nextn(source.tensors@),
            first_fault(source, modules@, 0) == first_fault(source, modules@, i as int),
        decreases modules.len() - i,
    {
        if let Some(f) = check_module(source, &modules[i], i) {
            return Err(MetalError::Model(f));
        }
        i = i + 1;
    }
    Ok(())
}

/// A checkpoint without a fault has none in any module.
pub proof fn sound_checkpoints_have_sound_modules(source: &Shards, modules: Seq<Module>, n: int, i: int)
    requires
        first_fault(source, modules, n) is None,
        0 <= n <= i < modules.len(),
    ensures
        module_fault(source, modules[i], i as usize) is None,
    decreases i - n,
{
    if n < i {
        sound_checkpoints_have_sound_modules(source, modules, n + 1, i);
    }
}

/// Single-precision bits of a finite number.
pub open spec fn finite_word(w: u32) -> bool {
    w & 0x7f80_0000 != 0x7f80_0000
}

pub open spec fn all_finite(data: Seq<u8>) -> bool {
    forall|i: int| 0 <= i < data.len() / 4 ==> finite_word(#[trigger] word(data, i))
}

fn check_finite(data: &[u8]) -> (r: bool)
    ensures
        r == all_finite(data@),
{
    let n: usize = data.len() / 4;
    let mut i: usize = 0;
    while i < n
        invariant
            i <= n,
            n == data@.len() / 4,
            forall|j: int| 0 <= j < i ==> finite_word(#[trigger] word(data@, j)),
        decreases n - i,
    {
        if word_at(data, i) & 0x7f80_0000 == 0x7f80_0000 {
            assert(!finite_word(word(data@, i as int)));
            return false;
        }
        i = i + 1;
    }
    true
}

/// The scales beside a code tensor.
pub open spec fn scales_name(stored: Seq<char>) -> Seq<char> {
    stored.take(stored.len() - 7) + ".scales"@
}

/// A resident ternary or full-precision plane, and whether the recurrent
/// decay still has to be prepared in place.
pub open spec fn plane_of(
    source: &Shards,
    name: Seq<char>,
    stored: Option<Seq<char>>,
    dims: Seq<u64>,
    id: u32,
) -> Result<(Weight, bool), Fault> {
    match stored {
        None => Err(Fault::Missing),
        Some(s) => match source.get(s) {
            None => Err(Fault::Missing),
            Some(t) => if t.dtype == Dtype::U32 {
                if dims.len() != 2 || !ends_in(s, ".weight"@) {
                    Err(Fault::Shape)
                } else {
                    let codes = source.typed(s, Dtype::U32, seq![dims[1], (dims[0] as int / 16) as u64]);
                    let scales = source.typed(
                        scales_name(s),
                        Dtype::F16,
                        seq![dims[1], (dims[0] as int / 128) as u64],
                    );
                    if codes is None || scales is None {
                        Err(Fault::Shape)
                    } else {
                        Ok(
                            (
                                Weight {
                                    buffer: Buffer {
                                        id,
                                        len: (codes->0.len() + scales->0.len()) as u64,
                                    },
                                    ty: AFFINE2,
                                    k: dims[0] as usize,
                                    n: dims[1] as usize,
                                },
                                false,
                            ),
                        )
                    }
                }
            } else {
                match source.typed(s, Dtype::F32, stored_shape(name, dims)) {
                    None => Err(Fault::Shape),
                    Some(data) => if !all_finite(data) {
                        Err(Fault::Nonfinite)
                    } else {
                        Ok(
                            (
                                Weight {
                                    buffer: Buffer { id, len: data.len() as u64 },
                                    ty: 0,
                                    k: dims[0] as usize,
                                    n: outputs(dims) as usize,
                                },
                                ends_in(name, "ssm_a"@),
                            ),
                        )
                    },
                }
            },
        },
    }
}

/// Plan the upload of one plane. Codes and scales stay as they are stored;
/// the biases are redundant once the checkpoint has been validated.
pub fn load_weight(source: &Shards, name: &str, mapped: Option<&str>, dims: &Vec<u64>, id: u32) -> (r: Result<
    (Weight, bool),
    MetalError,
>)
    requires
        dims.len() > 0,
        ends_in(name@, "ssm_conv1d.weight"@) ==> dims.len() >= 2,
        forall|i: int|
            0 <= i < source.tensors.len() ==> (#[trigger] source.tensors[i]).data@.len()
                <= 0x7fff_ffff_ffff_ffff,
    ensures
        r == match plane_of(
            source,
            name@,
            stored_name(
                name@,
                match mapped {
                    Some(n) => Some(n@),
                    None => None,
                },
            ),
            dims@,
            id,
        ) {
            Ok(w) => Ok::<(Weight, bool), MetalError>(w),
            Err(f) => Err(MetalError::Model(f)),
        },
{
    let stored = match hf_name(name, mapped) {
        Some(s) => s,
        None => {
            return Err(MetalError::Model(Fault::Missing));
        },
    };
    let at: usize = match source.find(stored.as_str()) {
        Some(i) => i,
        None => {
            return Err(MetalError::Model(Fault::Missing));
        },
    };
    if source.tensors[at].dtype == Dtype::U32 {
        if dims.len() != 2 || !has_end(stored.as_str(), ".weight") {
            return Err(MetalError::Model(Fault::Shape));
        }
        let (k, n): (u64, u64) = (dims[0], dims[1]);
        let s = stored.as_str();
        let len: usize = s.unicode_len();
        proof {
            reveal_strlit(".weight");
        }
        let mut scales_text = s.substring_char(0, len - 7).to_owned();
        scales_text.append(".scales");
        assert(scales_text@ =~= scales_name(stored@));
        let codes = source.bytes(s, Dtype::U32, &list2(n, k / 16));
        let scales = source.bytes(scales_text.as_str(), Dtype::F16, &list2(n, k / 128));
        proof {
            lemma_stored_at(source.tensors@, stored@, 0);
            lemma_stored_at(source.tensors@, scales_text@, 0);
        }
        return match (codes, scales) {
            (Some(c), Some(d)) => Ok(
                (
                    Weight {
                        buffer: Buffer { id, len: c.len() as u64 + d.len() as u64 },
                        ty: AFFINE2,
                        k: k as usize,
                        n: n as usize,
                    },
                    false,
                ),
            ),
            _ => Err(MetalError::Model(Fault::Shape)),
        };
    }
    let shape = small_shape(name, dims);
    match source.bytes(stored.as_str(), Dtype::F32, &shape) {
        None => Err(MetalError::Model(Fault::Shape)),
        Some(data) => {
            if !check_finite(data) {
                return Err(MetalError::Model(Fault::Nonfinite));
            }
            Ok(
                (
                    Weight {
                        buffer: Buffer { id, len: data.len() as u64 },
                        ty: 0,
                        k: dims[0] as usize,
                        n: if dims.len() > 1 { dims[1] as usize } else { 1 },
                    },
                    has_end(name, "ssm_a"),
                ),
            )
        },
    }
}

/// Prepare the recurrent decay in place.
pub open spec fn decay_step(buffer: Buffer, n: int) -> Step {
    kernel("bonsai_a"@, seq![buffer], seq![n as u32], (ceil_div(n, 256), 1, 1), 256)
}

pub fn prepare_decay(cmd: &mut Program, buffer: Buffer, n: usize)
    ensures
        final(cmd)@ == old(cmd)@.push(decay_step(buffer, n as int)),
{
    cmd.dispatch("bonsai_a", list1(buffer), list1(n as u32), (div_ceil(n, 256), 1, 1), 256);
}

} // verus!
