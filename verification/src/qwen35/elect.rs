//! Election of a stored decoder: its numbers, its rotary layout and its
//! experts, in the order in which they are refused.
use vstd::prelude::*;
use crate::error::{Fault, MetalError};
use crate::header::{
    block_name, block_text, count_field, expect, expected, first_misfit, get_count, get_real, is_named,
    real_field, schema, Entry, Expected, Header,
};
use crate::program::{list1, list2, list3, list4};
use crate::qwen35::geometry::Geometry;
use crate::qwen35::graph::CHUNK;

verus! {

/// What a checkpoint says of the decoder in it.
#[derive(Clone, Copy, Debug, PartialEq, Eq, Structural)]
pub struct Numbers {
    pub geometry: Geometry,
    pub vocab: usize,
    pub rotary: usize,
    /// The longest context that it was trained on.
    pub trained: usize,
    /// Bit patterns of the normalisation epsilon and the rotary base.
    pub eps: u32,
    pub rope: u32,
}

pub open spec fn routed(h: &Header) -> bool {
    h.architecture matches Some(a) && a@ == "qwen35moe"@
}

pub open spec fn hybrid(h: &Header) -> bool {
    h.architecture matches Some(a) && (a@ == "qwen35"@ || a@ == "qwen35moe"@)
}

pub open spec fn feed_forward_key(h: &Header) -> Seq<char> {
    if routed(h) { "expert_shared_feed_forward_length"@ } else { "feed_forward_length"@ }
}

/// Next-token blocks in the file: none or one; none of it where the field is
/// something else.
pub open spec fn nextn(h: &Header) -> Option<int> {
    if !h.has_field("nextn_predict_layers"@) {
        Some(0)
    } else {
        match h.unsigned("nextn_predict_layers"@) {
            Some(n) => if n <= 1 { Some(n as int) } else { None },
            None => None,
        }
    }
}

/// The first of the leading numbers that is missing, by its place.
pub open spec fn first_missing(h: &Header) -> Option<int> {
    if count_field(h, "embedding_length"@) is None {
        Some(0)
    } else if count_field(h, feed_forward_key(h)) is None {
        Some(1)
    } else if nextn(h) is None {
        Some(2)
    } else if count_field(h, "block_count"@) is None {
        Some(3)
    } else if count_field(h, "context_length"@) is None {
        Some(4)
    } else if count_field(h, "rope.dimension_count"@) is None {
        Some(5)
    } else if real_field(h, "attention.layer_norm_rms_epsilon"@) is None {
        Some(6)
    } else if real_field(h, "rope.freq_base"@) is None {
        Some(7)
    } else if count_field(h, "attention.head_count"@) is None {
        Some(8)
    } else if count_field(h, "attention.head_count_kv"@) is None {
        Some(9)
    } else if count_field(h, "ssm.time_step_rank"@) is None {
        Some(10)
    } else {
        None
    }
}

/// The shape that the numbers give: next-token blocks are no layers of it.
pub open spec fn stored_geometry(h: &Header) -> Geometry {
    Geometry {
        width: count_field(h, "embedding_length"@)->0 as usize,
        ff: count_field(h, feed_forward_key(h))->0 as usize,
        layers: (count_field(h, "block_count"@)->0 - nextn(h)->0) as usize,
        heads: count_field(h, "attention.head_count"@)->0 as usize,
        kv_heads: count_field(h, "attention.head_count_kv"@)->0 as usize,
        value_heads: count_field(h, "ssm.time_step_rank"@)->0 as usize,
    }
}

/// A number that must be there, at this place, and have this value.
pub open spec fn pinned(h: &Header, key: Seq<char>, want: u64, place: usize) -> Option<Fault> {
    match count_field(h, key) {
        None => Some(Fault::Field { index: place }),
        Some(n) => if n != want { Some(Fault::Geometry) } else { None },
    }
}

pub open spec fn sections_elected(h: &Header) -> bool {
    h.list("rope.dimension_sections"@) == Some(seq![11u64, 11, 10, 0].map_values(|n: u64| Some(n)))
}

/// Head widths, interleaved rotary and recurrent sizes that the kernels have.
pub open spec fn heads_fault(h: &Header) -> Option<Fault> {
    if pinned(h, "attention.key_length"@, 256, 11) is Some {
        pinned(h, "attention.key_length"@, 256, 11)
    } else if pinned(h, "attention.value_length"@, 256, 12) is Some {
        pinned(h, "attention.value_length"@, 256, 12)
    } else if count_field(h, "rope.dimension_count"@) != Some(64u64) {
        Some(Fault::Geometry)
    } else if !sections_elected(h) {
        Some(Fault::Geometry)
    } else if pinned(h, "full_attention_interval"@, 4, 13) is Some {
        pinned(h, "full_attention_interval"@, 4, 13)
    } else if pinned(h, "ssm.state_size"@, 128, 14) is Some {
        pinned(h, "ssm.state_size"@, 128, 14)
    } else if pinned(h, "ssm.group_count"@, 16, 15) is Some {
        pinned(h, "ssm.group_count"@, 16, 15)
    } else {
        pinned(h, "ssm.conv_kernel"@, 4, 16)
    }
}

/// Routed-expert numbers.
pub open spec fn experts_fault(h: &Header) -> Option<Fault> {
    if h.unsigned("expert_count"@) != Some(256u64) {
        Some(Fault::Field { index: 20 })
    } else if h.unsigned("expert_used_count"@) != Some(8u64) {
        Some(Fault::Field { index: 21 })
    } else if h.unsigned("expert_feed_forward_length"@) != Some(512u64) {
        Some(Fault::Field { index: 22 })
    } else if h.unsigned("expert_shared_feed_forward_length"@) != Some(512u64) {
        Some(Fault::Field { index: 23 })
    } else {
        None
    }
}

/// The routed tensors of the first `n` layers: eight-bit experts and
/// full-precision routers.
pub open spec fn experts_schema(n: int) -> Seq<Expected>
    decreases n,
{
    if n <= 0 {
        Seq::empty()
    } else {
        let i = n - 1;
        experts_schema(i).push(
            expected(block_name(i, "ffn_gate_exps.weight"@), seq![2048u64, 512, 256], 8, false),
        ).push(
            expected(block_name(i, "ffn_up_exps.weight"@), seq![2048u64, 512, 256], 8, false),
        ).push(
            expected(block_name(i, "ffn_down_exps.weight"@), seq![512u64, 2048, 256], 8, false),
        ).push(
            expected(block_name(i, "ffn_gate_inp.weight"@), seq![2048u64, 256], 0, false),
        ).push(expected(block_name(i, "ffn_gate_inp_shexp.weight"@), seq![2048u64], 0, false))
    }
}

/// Whatever is wrong with the routed experts of the first `layers` layers,
/// before a byte of them is uploaded.
pub open spec fn moe_fault(h: &Header, layers: int) -> Option<Fault> {
    if experts_fault(h) is Some {
        experts_fault(h)
    } else {
        match first_misfit(h, experts_schema(layers), 0) {
            Some(i) => Some(Fault::Tensor { index: i as usize }),
            None => None,
        }
    }
}

fn unsigned_is(h: &Header, key: &str, want: u64) -> (r: bool)
    ensures
        r == (h.unsigned(key@) == Some(want)),
{
    match h.get_unsigned(key) {
        Some(n) => n == want,
        None => false,
    }
}

/// Refuse a checkpoint whose experts have another size or format.
pub fn validate_experts(h: &Header, layers: usize) -> (r: Result<(), MetalError>)
    ensures
        r == match moe_fault(h, layers as int) {
            Some(f) => Err::<(), MetalError>(MetalError::Model(f)),
            None => Ok(()),
        },
{
    if !unsigned_is(h, "expert_count", 256) {
        return Err(MetalError::Model(Fault::Field { index: 20 }));
    }
    if !unsigned_is(h, "expert_used_count", 8) {
        return Err(MetalError::Model(Fault::Field { index: 21 }));
    }
    if !unsigned_is(h, "expert_feed_forward_length", 512) {
        return Err(MetalError::Model(Fault::Field { index: 22 }));
    }
    if !unsigned_is(h, "expert_shared_feed_forward_length", 512) {
        return Err(MetalError::Model(Fault::Field { index: 23 }));
    }
    let mut list: Vec<Entry> = Vec::new();
    let mut i: usize = 0;
    assert(schema(list@) =~= experts_schema(0));
    while i < layers
        invariant
            i <= layers,
            schema(list@) == experts_schema(i as int),
        decreases layers - i,
    {
        expect(&mut list, block_text(i, "ffn_gate_exps.weight"), list3(2048, 512, 256), 8, false);
        expect(&mut list, block_text(i, "ffn_up_exps.weight"), list3(2048, 512, 256), 8, false);
        expect(&mut list, block_text(i, "ffn_down_exps.weight"), list3(512, 2048, 256), 8, false);
        expect(&mut list, block_text(i, "ffn_gate_inp.weight"), list2(2048, 256), 0, false);
        expect(&mut list, block_text(i, "ffn_gate_inp_shexp.weight"), list1(2048), 0, false);
        i = i + 1;
    }
    match h.check_fit(&list) {
        Ok(_) => Ok(()),
        Err(e) => Err(e),
    }
}

/// Rows of the embedding plane that one tick's logits can address.
pub open spec fn vocabulary(h: &Header) -> Option<u64> {
    match h.tensor("token_embd.weight"@) {
        Some(t) => if t.dims.len() > 1 && 0 < t.dims[1] <= 0x7f_ffff { Some(t.dims[1]) } else { None },
        None => None,
    }
}

/// Why a stored decoder is refused, or its numbers.
pub open spec fn election(h: &Header, context: usize, batch: usize) -> Result<Numbers, Fault> {
    if !hybrid(h) {
        Err(Fault::Architecture)
    } else if first_missing(h) is Some {
        Err(Fault::Field { index: first_missing(h)->0 as usize })
    } else {
        let g = stored_geometry(h);
        let trained = count_field(h, "context_length"@)->0;
        if !g.elected() || routed(h) != g.is_moe() {
            Err(Fault::Geometry)
        } else if routed(h) && moe_fault(h, g.layers as int) is Some {
            Err(moe_fault(h, g.layers as int)->0)
        } else if heads_fault(h) is Some {
            Err(heads_fault(h)->0)
        } else if context == 0 || context > trained || batch == 0 || batch > CHUNK {
            Err(Fault::Range)
        } else if h.has_field("rope.scaling.type"@) {
            Err(Fault::Scaled)
        } else if vocabulary(h) is None {
            Err(Fault::Vocabulary)
        } else {
            Ok(
                Numbers {
                    geometry: g,
                    vocab: vocabulary(h)->0 as usize,
                    rotary: 64,
                    trained: trained as usize,
                    eps: real_field(h, "attention.layer_norm_rms_epsilon"@)->0,
                    rope: real_field(h, "rope.freq_base"@)->0,
                },
            )
        }
    }
}

fn is_pinned(h: &Header, key: &str, want: u64, place: usize) -> (r: Option<Fault>)
    ensures
        r == pinned(h, key@, want, place),
{
    match get_count(h, key) {
        None => Some(Fault::Field { index: place }),
        Some(n) => if n != want {
            Some(Fault::Geometry)
        } else {
            None
        },
    }
}

fn check_heads(h: &Header) -> (r: Option<Fault>)
    ensures
        r == heads_fault(h),
{
    if let Some(f) = is_pinned(h, "attention.key_length", 256, 11) {
        return Some(f);
    }
    if let Some(f) = is_pinned(h, "attention.value_length", 256, 12) {
        return Some(f);
    }
    match get_count(h, "rope.dimension_count") {
        Some(n) => {
            if n != 64 {
                return Some(Fault::Geometry);
            }
        },
        None => {
            return Some(Fault::Geometry);
        },
    }
    let sections = list4(11u64, 11, 10, 0);
    if !h.list_is("rope.dimension_sections", &sections) {
        return Some(Fault::Geometry);
    }
    if let Some(f) = is_pinned(h, "full_attention_interval", 4, 13) {
        return Some(f);
    }
    if let Some(f) = is_pinned(h, "ssm.state_size", 128, 14) {
        return Some(f);
    }
    if let Some(f) = is_pinned(h, "ssm.group_count", 16, 15) {
        return Some(f);
    }
    is_pinned(h, "ssm.conv_kernel", 4, 16)
}

fn is_hybrid(h: &Header) -> (r: (bool, bool))
    ensures
        r.0 == hybrid(h),
        r.1 == routed(h),
{
    match &h.architecture {
        Some(a) => {
            let moe = is_named(a, "qwen35moe");
            (moe || is_named(a, "qwen35"), moe)
        },
        None => (false, false),
    }
}

fn get_nextn(h: &Header) -> (r: Option<u64>)
    ensures
        match r {
            Some(n) => nextn(h) == Some(n as int) && n <= 1,
            None => nextn(h) is None,
        },
{
    if !h.contains_field("nextn_predict_layers") {
        return Some(0);
    }
    match h.get_unsigned("nextn_predict_layers") {
        Some(n) => if n <= 1 {
            Some(n)
        } else {
            None
        },
        None => None,
    }
}

/// The leading numbers in the order of reading.
fn read_numbers(h: &Header, moe: bool) -> (r: Result<(Geometry, u64, u32, u32), Fault>)
    requires
        moe == routed(h),
    ensures
        match first_missing(h) {
            Some(i) => r == Err::<(Geometry, u64, u32, u32), Fault>(Fault::Field { index: i as usize }),
            None => r == Ok::<(Geometry, u64, u32, u32), Fault>(
                (
                    stored_geometry(h),
                    count_field(h, "context_length"@)->0,
                    real_field(h, "attention.layer_norm_rms_epsilon"@)->0,
                    real_field(h, "rope.freq_base"@)->0,
                ),
            ),
        },
{
    let width: u64 = match get_count(h, "embedding_length") {
        Some(n) => n,
        None => {
            return Err(Fault::Field { index: 0 });
        },
    };
    let key = if moe { "expert_shared_feed_forward_length" } else { "feed_forward_length" };
    let ff: u64 = match get_count(h, key) {
        Some(n) => n,
        None => {
            return Err(Fault::Field { index: 1 });
        },
    };
    let next: u64 = match get_nextn(h) {
        Some(n) => n,
        None => {
            return Err(Fault::Field { index: 2 });
        },
    };
    let count: u64 = match get_count(h, "block_count") {
        Some(n) => n,
        None => {
            return Err(Fault::Field { index: 3 });
        },
    };
    let trained: u64 = match get_count(h, "context_length") {
        Some(n) => n,
        None => {
            return Err(Fault::Field { index: 4 });
        },
    };
    if get_count(h, "rope.dimension_count").is_none() {
        return Err(Fault::Field { index: 5 });
    }
    let eps: u32 = match get_real(h, "attention.layer_norm_rms_epsilon") {
        Some(n) => n,
        None => {
            return Err(Fault::Field { index: 6 });
        },
    };
    let rope: u32 = match get_real(h, "rope.freq_base") {
        Some(n) => n,
        None => {
            return Err(Fault::Field { index: 7 });
        },
    };
    let heads: u64 = match get_count(h, "attention.head_count") {
        Some(n) => n,
        None => {
            return Err(Fault::Field { index: 8 });
        },
    };
    let kv_heads: u64 = match get_count(h, "attention.head_count_kv") {
        Some(n) => n,
        None => {
            return Err(Fault::Field { index: 9 });
        },
    };
    let value_heads: u64 = match get_count(h, "ssm.time_step_rank") {
        Some(n) => n,
        None => {
            return Err(Fault::Field { index: 10 });
        },
    };
    let g = Geometry {
        width: width as usize,
        ff: ff as usize,
        layers: (count - next) as usize,
        heads: heads as usize,
        kv_heads: kv_heads as usize,
        value_heads: value_heads as usize,
    };
    Ok((g, trained, eps, rope))
}

fn read_vocabulary(h: &Header) -> (r: Option<u64>)
    ensures
        r == vocabulary(h),
{
    match h.find_tensor("token_embd.weight") {
        Some(k) => {
            let t = &h.tensors[k];
            if t.dims.len() > 1 && t.dims[1] > 0 && t.dims[1] <= 0x7f_ffff {
                Some(t.dims[1])
            } else {
                None
            }
        },
        None => None,
    }
}

/// Elect a stored decoder.
pub fn elect(h: &Header, context: usize, batch: usize) -> (r: Result<Numbers, MetalError>)
    ensures
        r == match election(h, context, batch) {
            Ok(n) => Ok::<Numbers, MetalError>(n),
            Err(f) => Err(MetalError::Model(f)),
        },
{
    let (known, moe) = is_hybrid(h);
    if !known {
        return Err(MetalError::Model(Fault::Architecture));
    }
    let (g, trained, eps, rope) = match read_numbers(h, moe) {
        Ok(n) => n,
        Err(f) => {
            return Err(MetalError::Model(f));
        },
    };
    match g.validate() {
        Ok(_) => {},
        Err(e) => {
            return Err(e);
        },
    }
    if moe != g.moe() {
        return Err(MetalError::Model(Fault::Geometry));
    }
    if moe {
        match validate_experts(h, g.layers) {
            Ok(_) => {},
            Err(e) => {
                return Err(e);
            },
        }
    }
    if let Some(f) = check_heads(h) {
        return Err(MetalError::Model(f));
    }
    if context == 0 || context as u64 > trained || batch == 0 || batch > CHUNK {
        return Err(MetalError::Model(Fault::Range));
    }
    if h.contains_field("rope.scaling.type") {
        return Err(MetalError::Model(Fault::Scaled));
    }
    match read_vocabulary(h) {
        None => Err(MetalError::Model(Fault::Vocabulary)),
        Some(v) => Ok(
            Numbers {
                geometry: g,
                vocab: v as usize,
                rotary: 64,
                trained: trained as usize,
                eps,
                rope,
            },
        ),
    }
}

} // verus!
