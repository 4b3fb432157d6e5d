//! Planes of the vision tower beside a ternary checkpoint: stored names, the
//! order of patch pixels and half-precision values.
use vstd::prelude::*;
use vstd::bytes::{spec_u16_to_le_bytes, spec_u32_to_le_bytes, u16_to_le_bytes, u32_to_le_bytes};
use crate::error::{Fault, MetalError};
use crate::header::{is_named, occurs, occurs_at};
use crate::program::list5;
use crate::qwen35::checkpoint::{ends_in, has_end, Dtype, Shards};
use crate::qwen35::ternary::{half_at, half_word};

verus! {

/// `s` with the first `most` occurrences of `from` replaced, left to right.
pub open spec fn replaced(s: Seq<char>, from: Seq<char>, to: Seq<char>, most: nat) -> Seq<char>
    decreases s.len(),
{
    if s.len() == 0 || from.len() == 0 || most == 0 {
        s
    } else if occurs(s, from, 0) {
        to + replaced(s.skip(from.len() as int), from, to, (most - 1) as nat)
    } else {
        seq![s[0]] + replaced(s.skip(1), from, to, most)
    }
}

fn replace(s: &str, from: &str, to: &str, most: usize) -> (r: String)
    requires
        from@.len() > 0,
    ensures
        r@ == replaced(s@, from@, to@, most as nat),
{
    let n: usize = s.unicode_len();
    let m: usize = from.unicode_len();
    let mut out = "".to_owned();
    let mut at: usize = 0;
    let mut left: usize = most;
    proof {
        reveal_strlit("");
        assert(s@.skip(0) =~= s@);
        assert(out@ + replaced(s@, from@, to@, most as nat) =~= replaced(s@, from@, to@, most as nat));
    }
    while at < n && left > 0
        invariant
            at <= n,
            n == s@.len(),
            m == from@.len(),
            m > 0,
            out@ + replaced(s@.skip(at as int), from@, to@, left as nat) == replaced(
                s@,
                from@,
                to@,
                most as nat,
            ),
        decreases n - at,
    {
        let ghost rest = s@.skip(at as int);
        let ghost held = out@;
        if occurs_at(s, from, at) {
            out.append(to);
            proof {
                assert(rest.subrange(0, m as int) =~= s@.subrange(at as int, at + m));
                assert(rest.skip(m as int) =~= s@.skip(at + m));
                assert(held + (to@ + replaced(s@.skip(at + m), from@, to@, (left - 1) as nat)) =~= out@
                    + replaced(s@.skip(at + m), from@, to@, (left - 1) as nat));
            }
            at = at + m;
            left = left - 1;
        } else {
            out.append(s.substring_char(at, at + 1));
            proof {
                if occurs(rest, from@, 0) {
                    assert(rest.subrange(0, m as int) =~= s@.subrange(at as int, at + m));
                }
                assert(rest.skip(1) =~= s@.skip(at + 1));
                assert(s@.subrange(at as int, at + 1) =~= seq![rest[0]]);
                assert(held + (seq![rest[0]] + replaced(s@.skip(at + 1), from@, to@, left as nat)) =~= out@
                    + replaced(s@.skip(at + 1), from@, to@, left as nat));
            }
            at = at + 1;
        }
    }
    out.append(s.substring_char(at, n));
    proof {
        assert(s@.subrange(at as int, n as int) =~= s@.skip(at as int));
    }
    out
}

/// The stored name of a merger plane.
pub open spec fn merger_name(n: Seq<char>) -> Seq<char> {
    replaced(
        replaced(n, "mm.0."@, "vision_tower.merger.linear_fc1."@, 1),
        "mm.2."@,
        "vision_tower.merger.linear_fc2."@,
        1,
    )
}

/// The stored name of a block plane.
pub open spec fn tower_name(n: Seq<char>, most: nat) -> Seq<char> {
    let n = replaced(n, "v.blk."@, "vision_tower.blocks."@, 1);
    let n = replaced(n, "ln1."@, "norm1."@, most);
    let n = replaced(n, "ln2."@, "norm2."@, most);
    let n = replaced(n, "attn_qkv."@, "attn.qkv."@, most);
    let n = replaced(n, "attn_out."@, "attn.proj."@, most);
    let n = replaced(n, "ffn_up."@, "mlp.linear_fc1."@, most);
    replaced(n, "ffn_down."@, "mlp.linear_fc2."@, most)
}

pub open spec fn is_patch(name: Seq<char>) -> bool {
    name == "v.patch_embd.weight"@ || name == "v.patch_embd.weight.1"@
}

/// The stored name of a tower plane; every occurrence of a part is renamed.
pub open spec fn vision_name(name: Seq<char>) -> Seq<char> {
    if is_patch(name) {
        "vision_tower.patch_embed.proj.weight"@
    } else if name == "v.patch_embd.bias"@ {
        "vision_tower.patch_embed.proj.bias"@
    } else if name == "v.position_embd.weight"@ {
        "vision_tower.pos_embed.weight"@
    } else if name == "v.post_ln.weight"@ {
        "vision_tower.merger.norm.weight"@
    } else if name == "v.post_ln.bias"@ {
        "vision_tower.merger.norm.bias"@
    } else if occurs(name, "mm."@, 0) {
        merger_name(name)
    } else {
        tower_name(name, usize::MAX as nat)
    }
}

proof fn lemma_parts()
    ensures
        "mm.0."@.len() > 0,
        "mm.2."@.len() > 0,
        "v.blk."@.len() > 0,
        "ln1."@.len() > 0,
        "ln2."@.len() > 0,
        "attn_qkv."@.len() > 0,
        "attn_out."@.len() > 0,
        "ffn_up."@.len() > 0,
        "ffn_down."@.len() > 0,
{
    reveal_strlit("mm.0.");
    reveal_strlit("mm.2.");
    reveal_strlit("v.blk.");
    reveal_strlit("ln1.");
    reveal_strlit("ln2.");
    reveal_strlit("attn_qkv.");
    reveal_strlit("attn_out.");
    reveal_strlit("ffn_up.");
    reveal_strlit("ffn_down.");
}

pub fn vision_text(name: &String) -> (r: String)
    ensures
        r@ == vision_name(name@),
{
    proof {
        lemma_parts();
    }
    if is_named(name, "v.patch_embd.weight") || is_named(name, "v.patch_embd.weight.1") {
        return "vision_tower.patch_embed.proj.weight".to_owned();
    }
    if is_named(name, "v.patch_embd.bias") {
        return "vision_tower.patch_embed.proj.bias".to_owned();
    }
    if is_named(name, "v.position_embd.weight") {
        return "vision_tower.pos_embed.weight".to_owned();
    }
    if is_named(name, "v.post_ln.weight") {
        return "vision_tower.merger.norm.weight".to_owned();
    }
    if is_named(name, "v.post_ln.bias") {
        return "vision_tower.merger.norm.bias".to_owned();
    }
    if occurs_at(name.as_str(), "mm.", 0) {
        let n = replace(name.as_str(), "mm.0.", "vision_tower.merger.linear_fc1.", 1);
        return replace(n.as_str(), "mm.2.", "vision_tower.merger.linear_fc2.", 1);
    }
    let n = replace(name.as_str(), "v.blk.", "vision_tower.blocks.", 1);
    let n = replace(n.as_str(), "ln1.", "norm1.", usize::MAX);
    let n = replace(n.as_str(), "ln2.", "norm2.", usize::MAX);
    let n = replace(n.as_str(), "attn_qkv.", "attn.qkv.", usize::MAX);
    let n = replace(n.as_str(), "attn_out.", "attn.proj.", usize::MAX);
    let n = replace(n.as_str(), "ffn_up.", "mlp.linear_fc1.", usize::MAX);
    replace(n.as_str(), "ffn_down.", "mlp.linear_fc2.", usize::MAX)
}

/// Where element `i` of a patch plane is stored: output, frame, pixel, colour
/// there; output, colour, pixel here.
pub open spec fn patch_source(i: int, second: bool) -> int {
    let row = i / 768;
    let col = i % 768;
    ((row * 2 + if second { 1int } else { 0 }) * 256 + col % 256) * 3 + col / 256
}

/// The two patch planes read every stored element exactly once: distinct
/// places of either plane never read the same element, and all lie inside.
pub proof fn patch_planes_partition(i: int, a: bool, j: int, b: bool)
    requires
        0 <= i < 1152 * 768,
        0 <= j < 1152 * 768,
    ensures
        0 <= patch_source(i, a) < 1152 * 1536,
        (i, a) != (j, b) ==> patch_source(i, a) != patch_source(j, b),
{
    let r = i / 768;
    let c = i % 768;
    let s = j / 768;
    let d = j % 768;
    let x = if a { 1int } else { 0 };
    let y = if b { 1int } else { 0 };
    if patch_source(i, a) == patch_source(j, b) {
        assert(c / 256 == d / 256) by {
            assert(0 <= c / 256 < 3 && 0 <= d / 256 < 3);
        }
        assert((r * 2 + x) * 256 + c % 256 == (s * 2 + y) * 256 + d % 256);
        assert(c % 256 == d % 256);
        assert(r * 2 + x == s * 2 + y);
        assert(x == y && r == s);
        assert(c == d);
    }
}

/// A half-precision significand brought up to its leading bit.
pub open spec fn normal(m: int, e: int) -> (int, int)
    decreases 0x800 - m,
{
    if m <= 0 || m >= 0x400 {
        (m, e)
    } else {
        normal(2 * m, e - 1)
    }
}

/// The single-precision bits of a finite half-precision number: the same
/// sign and value, the exponent rebased.
pub open spec fn widened(h: u16) -> u32 {
    let sign = if h >= 0x8000 { 0x8000_0000int } else { 0 };
    let exponent = h as int % 0x8000 / 0x400;
    let fraction = h as int % 0x400;
    if exponent == 0 && fraction == 0 {
        sign as u32
    } else {
        let (m, e) = if exponent == 0 { normal(fraction, 1) } else { (fraction + 0x400, exponent) };
        (sign + (e + 112) * 0x80_0000 + (m - 0x400) * 0x2000) as u32
    }
}

/// The exponent of an infinity or of no number.
pub open spec fn unbounded(h: u16) -> bool {
    h as int % 0x8000 / 0x400 == 31
}

proof fn lemma_normal(m: int, e: int)
    requires
        0 < m < 0x800,
    ensures
        0x400 <= normal(m, e).0 < 0x800,
        e - 10 <= normal(m, e).1 <= e,
        m >= 1 ==> normal(m, e).1 >= e - (if m >= 0x400 {
            0int
        } else if m >= 0x200 {
            1
        } else if m >= 0x100 {
            2
        } else if m >= 0x80 {
            3
        } else if m >= 0x40 {
            4
        } else if m >= 0x20 {
            5
        } else if m >= 0x10 {
            6
        } else if m >= 8 {
            7
        } else if m >= 4 {
            8
        } else if m >= 2 {
            9
        } else {
            10
        }),
    decreases 0x800 - m,
{
    if m < 0x400 {
        lemma_normal(2 * m, e - 1);
    }
}

/// Widen a finite half-precision number, bits to bits.
pub fn widen(h: u16) -> (r: u32)
    requires
        !unbounded(h),
    ensures
        r == widened(h),
{
    let sign: u32 = if h >= 0x8000 { 0x8000_0000 } else { 0 };
    let exponent: u32 = (h % 0x8000 / 0x400) as u32;
    let fraction: u32 = (h % 0x400) as u32;
    if exponent == 0 && fraction == 0 {
        return sign;
    }
    let mut m: u32 = fraction;
    // The exponent is kept above zero by the bias of the wider format.
    let mut e: u32 = exponent + 112;
    if exponent == 0 {
        e = 113;
        let ghost want = normal(fraction as int, 1);
        proof {
            lemma_normal(fraction as int, 1);
        }
        while m < 0x400
            invariant
                0 < m < 0x800,
                113 - 10 <= e <= 113,
                want == normal(m as int, e - 112),
                want.1 >= -9,
                0x400 <= want.0 < 0x800,
            decreases 0x800 - m,
        {
            proof {
                lemma_normal(2 * m, e - 113);
            }
            m = m * 2;
            e = e - 1;
        }
    } else {
        m = m + 0x400;
    }
    sign + e * 0x80_0000 + (m - 0x400) * 0x2000
}

/// A plane's place in the stored order.
pub open spec fn source_index(name: Seq<char>, i: int) -> int {
    if is_patch(name) { patch_source(i, ends_in(name, ".1"@)) } else { i }
}

/// The resident bytes of the first `n` values: half precision as it is
/// stored, or widened.
pub open spec fn resident(data: Seq<u8>, name: Seq<char>, half: bool, n: int) -> Seq<u8>
    decreases n,
{
    if n <= 0 {
        Seq::empty()
    } else {
        let h = half_word(data, source_index(name, n - 1));
        resident(data, name, half, n - 1) + if half {
            spec_u16_to_le_bytes(h)
        } else {
            spec_u32_to_le_bytes(widened(h))
        }
    }
}

pub open spec fn any_unbounded(data: Seq<u8>, name: Seq<char>, n: int) -> bool {
    exists|i: int| 0 <= i < n && unbounded(half_word(data, #[trigger] source_index(name, i)))
}

pub open spec fn product(dims: Seq<u64>) -> int
    decreases dims.len(),
{
    if dims.len() == 0 {
        1
    } else {
        product(dims.drop_last()) * dims.last()
    }
}

/// Stored shape of a tower plane.
pub open spec fn vision_shape(name: Seq<char>, dims: Seq<u64>) -> Seq<u64> {
    if is_patch(name) {
        seq![1152u64, 2, 16, 16, 3]
    } else {
        dims.reverse()
    }
}

/// Values that a plane holds, where its stored bytes agree with its shape.
pub open spec fn covered(data: Seq<u8>, name: Seq<char>, dims: Seq<u64>) -> bool {
    &&& product(dims) <= usize::MAX
    &&& is_patch(name) ==> product(dims) == 1152 * 768 && data.len() == 1152 * 1536 * 2
    &&& !is_patch(name) ==> data.len() == product(dims) * 2
}

fn count(dims: &Vec<u64>) -> (r: usize)
    requires
        product(dims@) <= usize::MAX,
        forall|i: int| 0 <= i < dims.len() ==> 0 < #[trigger] dims[i],
    ensures
        r == product(dims@),
{
    let mut n: u128 = 1;
    let mut i: usize = 0;
    assert(dims@.take(0) =~= Seq::<u64>::empty());
    while i < dims.len()
        invariant
            i <= dims.len(),
            n == product(dims@.take(i as int)),
            0 < n <= usize::MAX,
            product(dims@) <= usize::MAX,
            forall|i: int| 0 <= i < dims.len() ==> 0 < #[trigger] dims[i],
        decreases dims.len() - i,
    {
        let ghost next = dims@.take(i + 1);
        proof {
            assert(next.drop_last() =~= dims@.take(i as int));
            assert(next.last() == dims[i as int]);
            lemma_product_grows(dims@, i + 1);
            assert(n * dims[i as int] <= 0xffff_ffff_ffff_ffff * 0xffff_ffff_ffff_ffff) by (nonlinear_arith)
                requires
                    n <= 0xffff_ffff_ffff_ffff,
                    dims[i as int] <= 0xffff_ffff_ffff_ffff,
            ;
        }
        n = n * dims[i] as u128;
        i = i + 1;
    }
    assert(dims@.take(dims.len() as int) =~= dims@);
    n as usize
}

proof fn lemma_product_grows(dims: Seq<u64>, n: int)
    requires
        0 <= n <= dims.len(),
        forall|i: int| 0 <= i < dims.len() ==> 0 < #[trigger] dims[i],
    ensures
        0 < product(dims.take(n)) <= product(dims),
    decreases dims.len(),
{
    if n == dims.len() {
        assert(dims.take(n) =~= dims);
        lemma_product_positive(dims);
    } else {
        let rest = dims.drop_last();
        assert(rest.take(n) =~= dims.take(n));
        lemma_product_grows(rest, n);
        lemma_product_positive(rest);
        let p = product(rest);
        let d = dims.last() as int;
        assert(dims[dims.len() - 1] == d);
        assert(p <= p * d) by (nonlinear_arith)
            requires
                0 < p,
                0 < d,
        ;
    }
}

proof fn lemma_product_positive(dims: Seq<u64>)
    requires
        forall|i: int| 0 <= i < dims.len() ==> 0 < #[trigger] dims[i],
    ensures
        0 < product(dims),
    decreases dims.len(),
{
    if dims.len() > 0 {
        lemma_product_positive(dims.drop_last());
        let p = product(dims.drop_last());
        let d = dims.last() as int;
        assert(dims[dims.len() - 1] == d);
        assert(0 < p * d) by (nonlinear_arith)
            requires
                0 < p,
                0 < d,
        ;
    }
}

/// The resident bytes of a tower plane, or why it is refused.
pub fn vision_weight(source: &Shards, name: &String, dims: &Vec<u64>, half: bool) -> (r: Result<
    Vec<u8>,
    MetalError,
>)
    requires
        forall|i: int| 0 <= i < dims.len() ==> 0 < #[trigger] dims[i],
        source.typed(vision_name(name@), Dtype::F16, vision_shape(name@, dims@)) matches Some(data)
            ==> covered(data, name@, dims@),
    ensures
        match source.typed(vision_name(name@), Dtype::F16, vision_shape(name@, dims@)) {
            None => r matches Err(e) && e == MetalError::Model(Fault::Shape),
            Some(data) => if any_unbounded(data, name@, product(dims@)) {
                r matches Err(e) && e == MetalError::Model(Fault::Nonfinite)
            } else {
                r matches Ok(out) && out@ == resident(data, name@, half, product(dims@))
            },
        },
{
    let stored = vision_text(name);
    let patch = is_named(name, "v.patch_embd.weight") || is_named(name, "v.patch_embd.weight.1");
    let shape = if patch { list5(1152u64, 2, 16, 16, 3) } else { reversed(dims) };
    let data = match source.bytes(stored.as_str(), Dtype::F16, &shape) {
        Some(d) => d,
        None => {
            return Err(MetalError::Model(Fault::Shape));
        },
    };
    let second = has_end(name.as_str(), ".1");
    let n: usize = count(dims);
    let len: usize = data.len();
    let mut out: Vec<u8> = Vec::new();
    let mut i: usize = 0;
    while i < n
        invariant
            i <= n,
            n == product(dims@),
            len == data@.len(),
            patch == is_patch(name@),
            second == ends_in(name@, ".1"@),
            covered(data@, name@, dims@),
            source.typed(vision_name(name@), Dtype::F16, vision_shape(name@, dims@)) == Some(data@),
            out@ == resident(data@, name@, half, i as int),
            forall|j: int| 0 <= j < i ==> !unbounded(half_word(data@, #[trigger] source_index(name@, j))),
        decreases n - i,
    {
        let at: usize = if patch {
            proof {
                patch_planes_partition(i as int, second, i as int, second);
            }
            let row: usize = i / 768;
            let col: usize = i % 768;
            ((row * 2 + if second { 1 } else { 0 }) * 256 + col % 256) * 3 + col / 256
        } else {
            i
        };
        assert(at == source_index(name@, i as int));
        let bits: u16 = half_at(data, at);
        if bits % 0x8000 / 0x400 == 31 {
            assert(unbounded(half_word(data@, source_index(name@, i as int))));
            return Err(MetalError::Model(Fault::Nonfinite));
        }
        if half {
            let mut b = u16_to_le_bytes(bits);
            out.append(&mut b);
        } else {
            let mut b = u32_to_le_bytes(widen(bits));
            out.append(&mut b);
        }
        i = i + 1;
    }
    Ok(out)
}

fn reversed(dims: &Vec<u64>) -> (r: Vec<u64>)
    ensures
        r@ == dims@.reverse(),
{
    let mut out: Vec<u64> = Vec::new();
    let mut i: usize = dims.len();
    while i > 0
        invariant
            i <= dims.len(),
            out.len() == dims.len() - i,
            forall|j: int| 0 <= j < out.len() ==> out[j] == dims[dims.len() - 1 - j],
        decreases i,
    {
        i = i - 1;
        out.push(dims[i]);
    }
    assert(out@ =~= dims@.reverse());
    out
}

} // verus!
