//! The image processor beside a ternary checkpoint: its settings and the
//! pixel budget that they grant.
use vstd::prelude::*;
use crate::error::{Fault, MetalError};

verus! {

/// Bit pattern of the double-precision number one half.
pub const HALF: u64 = 0x3fe0_0000_0000_0000;

/// The settings of an image processor. A number that is missing or not a
/// count is none; a list that is missing is none.
#[derive(Debug)]
pub struct Processor {
    pub patch_size: Option<u64>,
    pub temporal_patch_size: Option<u64>,
    pub merge_size: Option<u64>,
    /// Bit patterns of double-precision numbers; none where an element is
    /// something else.
    pub image_mean: Option<Vec<Option<u64>>>,
    pub image_std: Option<Vec<Option<u64>>>,
    pub shortest_edge: Option<u64>,
    pub longest_edge: Option<u64>,
}

/// The settings, as the contracts see them.
pub struct Settings {
    pub patch_size: Option<u64>,
    pub temporal_patch_size: Option<u64>,
    pub merge_size: Option<u64>,
    pub image_mean: Option<Seq<Option<u64>>>,
    pub image_std: Option<Seq<Option<u64>>>,
    pub shortest_edge: Option<u64>,
    pub longest_edge: Option<u64>,
}

pub open spec fn listed(v: Option<Vec<Option<u64>>>) -> Option<Seq<Option<u64>>> {
    match v {
        Some(l) => Some(l@),
        None => None,
    }
}

impl View for Processor {
    type V = Settings;

    open spec fn view(&self) -> Settings {
        Settings {
            patch_size: self.patch_size,
            temporal_patch_size: self.temporal_patch_size,
            merge_size: self.merge_size,
            image_mean: listed(self.image_mean),
            image_std: listed(self.image_std),
            shortest_edge: self.shortest_edge,
            longest_edge: self.longest_edge,
        }
    }
}

/// The settings that `serde_json::from_slice` reads out of a document; none
/// where it is not one JSON value.
pub uninterp spec fn json_settings(document: Seq<u8>) -> Option<Settings>;

/// `serde_json::from_slice` into a `serde_json::Value`, of which the settings
/// are taken member by member. They depend on the bytes alone. Not stated:
/// the grammar by which the bytes are read.
#[verifier::external_body]
fn read_settings(document: &[u8]) -> (r: Option<Processor>)
    ensures
        match r {
            Some(p) => json_settings(document@) == Some(p@),
            None => json_settings(document@) is None,
        },
{
    let p: serde_json::Value = serde_json::from_slice(document).ok()?;
    let bits = |x: &serde_json::Value| x.as_f64().map(|y| y.to_bits());
    let reals = |x: &serde_json::Value| x.as_array().map(|a| a.iter().map(bits).collect());
    Some(
        Processor {
            patch_size: p["patch_size"].as_u64(),
            temporal_patch_size: p["temporal_patch_size"].as_u64(),
            merge_size: p["merge_size"].as_u64(),
            image_mean: reals(&p["image_mean"]),
            image_std: reals(&p["image_std"]),
            shortest_edge: p["size"]["shortest_edge"].as_u64(),
            longest_edge: p["size"]["longest_edge"].as_u64(),
        },
    )
}

pub open spec fn three_halves() -> Seq<Option<u64>> {
    seq![Some(HALF), Some(HALF), Some(HALF)]
}

/// The least and the greatest area of an image, or the setting at fault.
pub open spec fn granted(s: Settings) -> Result<(u64, u64), Fault> {
    if s.patch_size != Some(16u64) {
        Err(Fault::Field { index: 0 })
    } else if s.temporal_patch_size != Some(2u64) {
        Err(Fault::Field { index: 1 })
    } else if s.merge_size != Some(2u64) {
        Err(Fault::Field { index: 2 })
    } else if s.image_mean != Some(three_halves()) {
        Err(Fault::Field { index: 3 })
    } else if s.image_std != Some(three_halves()) {
        Err(Fault::Field { index: 4 })
    } else {
        match s.shortest_edge {
            None => Err(Fault::Field { index: 5 }),
            Some(least) => if least < 1024 || least % 1024 != 0 {
                Err(Fault::Field { index: 5 })
            } else {
                match s.longest_edge {
                    None => Err(Fault::Field { index: 6 }),
                    Some(most) => if most < least || most > 16777216 || most % 1024 != 0 {
                        Err(Fault::Field { index: 6 })
                    } else {
                        Ok((least, most))
                    },
                }
            },
        }
    }
}

fn is_count(v: Option<u64>, want: u64) -> (r: bool)
    ensures
        r == (v == Some(want)),
{
    match v {
        Some(n) => n == want,
        None => false,
    }
}

fn are_halves(v: &Option<Vec<Option<u64>>>) -> (r: bool)
    ensures
        r == (listed(*v) == Some(three_halves())),
{
    match v {
        None => false,
        Some(l) => {
            if l.len() != 3 {
                assert(l@.len() != three_halves().len());
                return false;
            }
            let r = is_count(l[0], HALF) && is_count(l[1], HALF) && is_count(l[2], HALF);
            proof {
                if r {
                    assert(l@ =~= three_halves());
                } else {
                    assert(l@[0] != three_halves()[0] || l@[1] != three_halves()[1] || l@[2]
                        != three_halves()[2]);
                }
            }
            r
        },
    }
}

/// The budget that sound settings grant.
pub fn grant(p: &Processor) -> (r: Result<(u64, u64), MetalError>)
    ensures
        r == match granted(p@) {
            Ok(b) => Ok::<(u64, u64), MetalError>(b),
            Err(f) => Err(MetalError::Model(f)),
        },
{
    if !is_count(p.patch_size, 16) {
        return Err(MetalError::Model(Fault::Field { index: 0 }));
    }
    if !is_count(p.temporal_patch_size, 2) {
        return Err(MetalError::Model(Fault::Field { index: 1 }));
    }
    if !is_count(p.merge_size, 2) {
        return Err(MetalError::Model(Fault::Field { index: 2 }));
    }
    if !are_halves(&p.image_mean) {
        return Err(MetalError::Model(Fault::Field { index: 3 }));
    }
    if !are_halves(&p.image_std) {
        return Err(MetalError::Model(Fault::Field { index: 4 }));
    }
    let least: u64 = match p.shortest_edge {
        Some(n) => n,
        None => {
            return Err(MetalError::Model(Fault::Field { index: 5 }));
        },
    };
    if least < 1024 || least % 1024 != 0 {
        return Err(MetalError::Model(Fault::Field { index: 5 }));
    }
    let most: u64 = match p.longest_edge {
        Some(n) => n,
        None => {
            return Err(MetalError::Model(Fault::Field { index: 6 }));
        },
    };
    if most < least || most > 16777216 || most % 1024 != 0 {
        return Err(MetalError::Model(Fault::Field { index: 6 }));
    }
    Ok((least, most))
}

/// The pixel budget of an image processor's document. One of more than a
/// mebibyte is refused unread.
pub fn vision_budget(document: &[u8]) -> (r: Result<(u64, u64), MetalError>)
    ensures
        r == if document@.len() > 0x10_0000 {
            Err::<(u64, u64), MetalError>(MetalError::Model(Fault::Overflow))
        } else {
            match json_settings(document@) {
                None => Err::<(u64, u64), MetalError>(MetalError::Model(Fault::Document)),
                Some(s) => match granted(s) {
                    Ok(b) => Ok::<(u64, u64), MetalError>(b),
                    Err(f) => Err(MetalError::Model(f)),
                },
            }
        },
{
    if document.len() > 0x10_0000 {
        return Err(MetalError::Model(Fault::Overflow));
    }
    match read_settings(document) {
        None => Err(MetalError::Model(Fault::Document)),
        Some(p) => grant(&p),
    }
}

/// A granted budget is whole patches of 1024 pixels, at least one, and no
/// more than sixteen mebipixels.
pub proof fn budgets_are_whole_patches(s: Settings)
    ensures
        granted(s) matches Ok(b) ==> 1024 <= b.0 <= b.1 <= 16777216 && b.0 % 1024 == 0 && b.1 % 1024 == 0,
{
}

} // verus!
