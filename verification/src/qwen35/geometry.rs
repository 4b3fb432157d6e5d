//! Elected hybrid shapes, not an open-ended allowlist of family names. Head
//! widths, rotary layout and the attention interval are checked on load.
use vstd::prelude::*;
use crate::arith::max;
use crate::error::{Fault, MetalError};

verus! {

/// Key heads of every recurrent layer.
pub const KEY_HEADS: usize = 16;

#[derive(Clone, Copy, Debug, PartialEq, Eq, Structural)]
pub struct Geometry {
    pub width: usize,
    pub ff: usize,
    pub layers: usize,
    pub heads: usize,
    pub kv_heads: usize,
    pub value_heads: usize,
}

impl Geometry {
    /// The dense nine-billion shape.
    #[verifier::allow_in_spec]
    pub fn dense_9b() -> Self
        returns
            (Geometry {
            width: 4096,
            ff: 12288,
            layers: 32,
            heads: 16,
            kv_heads: 4,
            value_heads: 32,
        }),
    {
        Geometry {
            width: 4096,
            ff: 12288,
            layers: 32,
            heads: 16,
            kv_heads: 4,
            value_heads: 32,
        }
    }

    /// The dense twenty-seven-billion shape.
    #[verifier::allow_in_spec]
    pub fn dense_27b() -> Self
        returns
            (Geometry {
            width: 5120,
            ff: 17408,
            layers: 64,
            heads: 24,
            kv_heads: 4,
            value_heads: 48,
        }),
    {
        Geometry {
            width: 5120,
            ff: 17408,
            layers: 64,
            heads: 24,
            kv_heads: 4,
            value_heads: 48,
        }
    }

    /// The routed thirty-five-billion shape.
    #[verifier::allow_in_spec]
    pub fn moe_35b() -> Self
        returns
            (Geometry {
            width: 2048,
            ff: 512,
            layers: 40,
            heads: 16,
            kv_heads: 2,
            value_heads: 32,
        }),
    {
        Geometry {
            width: 2048,
            ff: 512,
            layers: 40,
            heads: 16,
            kv_heads: 2,
            value_heads: 32,
        }
    }

    pub open spec fn elected(self) -> bool {
        self == Self::dense_9b() || self == Self::dense_27b() || self == Self::moe_35b()
    }

    pub open spec fn is_moe(self) -> bool {
        self == Self::moe_35b()
    }

    pub open spec fn full(self) -> int {
        self.layers as int / 4
    }

    pub open spec fn linear(self) -> int {
        self.layers - self.full()
    }

    pub open spec fn conv_width(self) -> int {
        (KEY_HEADS * 2 + self.value_heads) * 128
    }

    pub open spec fn state_size(self) -> int {
        self.value_heads * 128 * 128
    }

    pub fn moe(self) -> (r: bool)
        ensures
            r == self.is_moe(),
    {
        self == Self::moe_35b()
    }

    /// Prepared recurrent chunks are stored in full precision for the routed
    /// shape only.
    pub fn prepared_element_bytes(self) -> (r: usize)
        ensures
            r == if self.is_moe() { 4int } else { 2 },
    {
        if self.moe() {
            4
        } else {
            2
        }
    }

    /// The widest plane that the shared conversion workspace must hold: the
    /// feed-forward width does not bound the attention and recurrent inputs of
    /// a shape with small experts.
    pub fn projection_width(self) -> (r: usize)
        requires
            self.conv_width() <= usize::MAX,
            self.width * 2 <= usize::MAX,
            self.heads * 512 <= usize::MAX,
        ensures
            r == max(max(max(self.ff as int, self.conv_width()), self.width * 2), self.heads * 512),
    {
        let mut r: usize = self.ff;
        if self.conv() > r {
            r = self.conv();
        }
        if self.width * 2 > r {
            r = self.width * 2;
        }
        if self.heads * 512 > r {
            r = self.heads * 512;
        }
        r
    }

    pub fn validate(self) -> (r: Result<Self, MetalError>)
        ensures
            self.elected() ==> r == Ok::<Self, MetalError>(self),
            !self.elected() ==> r == Err::<Self, MetalError>(MetalError::Model(Fault::Geometry)),
    {
        if self == Self::dense_9b() || self == Self::dense_27b() || self == Self::moe_35b() {
            Ok(self)
        } else {
            Err(MetalError::Model(Fault::Geometry))
        }
    }

    pub fn linear_layers(self) -> (r: usize)
        ensures
            r == self.linear(),
    {
        self.layers - self.full_layers()
    }

    pub fn full_layers(self) -> (r: usize)
        ensures
            r == self.full(),
            r <= self.layers,
    {
        self.layers / 4
    }

    pub fn conv(self) -> (r: usize)
        requires
            self.conv_width() <= usize::MAX,
        ensures
            r == self.conv_width(),
    {
        (KEY_HEADS * 2 + self.value_heads) * 128
    }

    pub fn state(self) -> (r: usize)
        requires
            self.state_size() <= usize::MAX,
        ensures
            r == self.state_size(),
    {
        self.value_heads * 128 * 128
    }

    /// The grouped-query ratios that have a decode kernel.
    pub open spec fn grouped(self) -> bool {
        &&& self.kv_heads > 0
        &&& {
            let ratio = self.heads as int / self.kv_heads as int;
            ratio == 4 || ratio == 6 || ratio == 8
        }
    }

    pub open spec fn decode_name(self) -> Seq<char> {
        let ratio = self.heads as int / self.kv_heads as int;
        if ratio == 4 {
            "qwen_attention_decode_gqa4"@
        } else if ratio == 6 {
            "qwen_attention_decode"@
        } else {
            "qwen_attention_decode_gqa8"@
        }
    }

    pub fn decode_kernel(self) -> (r: &'static str)
        requires
            self.grouped(),
        ensures
            r@ == self.decode_name(),
    {
        let ratio: usize = self.heads / self.kv_heads;
        if ratio == 4 {
            "qwen_attention_decode_gqa4"
        } else if ratio == 6 {
            "qwen_attention_decode"
        } else {
            "qwen_attention_decode_gqa8"
        }
    }
}

/// Every elected shape shares output storage between attention and the
/// recurrent mixer, prepares enough of a chunk for four attention partitions
/// of each head, and sizes the conversion workspace for a padded query block.
pub proof fn elected_shapes_share_scratch(g: Geometry)
    requires
        g.elected(),
    ensures
        g.heads * 256 == g.value_heads * 128,
        g.value_heads * 17408 >= g.heads * 4 * 32 * 256,
        512 * max(max(max(g.ff as int, g.conv_width()), g.width * 2), g.heads * 512) >= (512 + 32)
            * g.heads * 256,
        g.linear() + g.full() == g.layers,
        g.linear() == 3 * g.full(),
        g.grouped(),
        g.conv_width() <= 10240,
        g.state_size() <= 786432,
{
}

} // verus!
