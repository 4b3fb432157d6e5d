//! What a refused request is answered.
use vstd::prelude::*;

verus! {

/// Why a checkpoint, a request or a plan was refused.
#[derive(Clone, Copy, Debug, PartialEq, Eq, Structural)]
pub enum Fault {
    /// Rows or the selection of one tick.
    Selection,
    /// Slot, token or position of one row.
    Row { slot: usize, token: u32, position: u32 },
    /// A packed slot is visited a second time.
    Revisited,
    /// The hybrid shape is not one of the elected ones.
    Geometry,
    /// The tensor at this place of the schema is missing or differs.
    Tensor { index: usize },
    /// A metadata field, by its place in the list of required fields.
    Field { index: usize },
    /// A stored tensor that the graph does not know.
    Foreign,
    /// The stored tensor at this place has a name that the graph does not
    /// know.
    Unexpected { index: usize },
    /// The stored tensor at this place is a matrix in another format.
    Format { index: usize },
    /// More or fewer tensors than the graph has.
    Inventory,
    /// No file of a checkpoint is there.
    Files,
    /// The checkpoint is of another architecture.
    Architecture,
    /// The graph is scaled or slides in a way that is not supported.
    Scaled,
    /// The embedding plane has no usable vocabulary.
    Vocabulary,
    /// Context or batch outside the supported range.
    Range,
    /// The memory grant does not cover the model.
    Budget,
    /// A weight plane of another shape.
    Shape,
    /// A weight plane that is not stored.
    Missing,
    /// Prompt text beyond the vocabulary or the context.
    PromptText,
    /// The tower refuses the image size.
    ImageSize,
    /// Pixel bytes disagree with the image size.
    PixelCount,
    /// The image rows exceed the context.
    ImageContext,
    /// A prompt part that is neither text nor image.
    Unsupported,
    /// A multimodal prompt without an image.
    NoImage,
    /// No page is free and nothing can be evicted.
    Pages,
    /// A verification pass awaits its verdict.
    Uncommitted,
    /// The slot still has a prompt in progress.
    Unfinished,
    /// Slot, tokens or length of a prompt.
    Prompt,
    /// Storage formats of the routed experts.
    ExpertFormat,
    /// Ternary planes whose rotation is not supported.
    Rotation,
    /// Storage format of the path selector.
    Selector,
    /// Sign vector of the packed module at this place.
    Signs { index: usize },
    /// A code of the packed module at this place that is not ternary.
    Codes { index: usize },
    /// Scales or biases of the packed module at this place.
    Scales { index: usize },
    /// A document that is not one value.
    Document,
    /// A logit that is infinite or not a number.
    Nonfinite,
    /// Token and position lists of a batch.
    Batch,
    /// Decode rows of a mixed tick.
    Decodes,
    /// The token pair of a relevance head.
    Head,
    /// More rows than can be counted.
    Overflow,
    /// Sequence length, token or row count of an encoder batch.
    Input,
    /// A result of another encoder or of another kind.
    Completion,
    /// The companion file is of another kind.
    Companion,
    /// A companion is attached twice or too late.
    Attached,
    /// The slot cannot take an image prompt.
    Busy,
    /// The slot occurs twice in one admission.
    Duplicate,
    /// Image size or pixel budget outside the supported limits.
    Pixels,
    /// The image is far longer than wide.
    Aspect,
    /// More patches than one wave can carry.
    Patches,
    /// Spans and bytes of a saved checkpoint disagree.
    Checkpoint,
    /// Checkpoint files changed since they were loaded.
    Changed,
    /// The transfer budget holds too few pages.
    Transfer,
}

#[derive(Clone, Copy, Debug, PartialEq, Eq, Structural)]
pub enum MetalError {
    Model(Fault),
    Memory(Fault),
}

} // verus!
