//! The works that kernels are called for.
use vstd::prelude::*;

verus! {

/// What a kernel is for. Kernels of several lanes may share a work.
pub enum Work {
    Embed,
    Norm,
    Gate,
    Residual,
    NormPicked,
    ResidualNorm,
    Align,
    Tile,
    Patch,
    Argmax,
    MergeParts,
    HeadTurn,
    BatchAttend,
    Pool,
    Score,
    /// With the columns and rows of its tile.
    Multiply { columns: int, rows: int },
    /// With the columns and rows of its tile.
    MultiplyMany { columns: int, rows: int },
    WindowConv,
    WindowSlide,
    Scan,
    SpaceGates,
    SpaceMatrix,
    SpaceDelta,
    SpaceStates,
    SpaceOutput,
    SpaceNorm,
    Store,
    Append,
    DecodeParts,
    Route,
    ExpertsUp,
    ExpertsUpEach,
    ExpertsDown,
    ExpertsDownEach,
    Square,
    Fold,
    StateCopy,
    ShortConv,
    HeadNorm,
    NetGates,
    NetVerify,
    NetSlide,
    NetRecur,
    ChunkDots,
    ChunkPrepare,
    ChunkWalk,
    NetNorm,
    EntryCopy,
    QueryTurn,
    KeyStore,
    Stage,
    StageTiles,
    AppendLimited,
    AppendPrepared,
    JoinParts,
    DecodeLimited,
    HeadGate,
    ExpertRoute,
    ExpertPairs,
    ExpertPairsEach,
    ExpertGate,
    ExpertBack,
    ExpertBackEach,
    ExpertFold,
    Tap,
    Beside,
    Previous,
    Publish,
    Advance,
    Inject,
    DraftNorm,
    DraftStore,
    DraftTurn,
    DraftAttend,
    DraftParts,
    DraftJoin,
    DraftConv,
    TopParts,
    TopMerge,
    Select,
    Taps,
    Narrow,
    Cut,
    Position,
    Biased,
    Centre,
    TowerHeads,
    TowerAttend,
    Activate,
    Extract,
    Rotate,
    EmbedRotated,
    Unknown,
}

/// The work of a kernel, by its name.
pub open spec fn work(name: Seq<char>) -> Work {
    if name == "embed"@ || name == "mlx_embed"@ {
        Work::Embed
    } else if name == "rms"@ || name == "mlx_rms"@ || name == "bonsai_rms"@ {
        Work::Norm
    } else if name == "swiglu"@ || name == "mlx_swiglu"@ {
        Work::Gate
    } else if name == "residual"@ || name == "mlx_residual"@ {
        Work::Residual
    } else if name == "rms_selected"@
        || name == "mlx_rms_selected"@
        || name == "bonsai_rms_selected"@ {
        Work::NormPicked
    } else if name == "residual_rms"@
        || name == "mlx_residual_rms"@
        || name == "bonsai_residual_rms"@ {
        Work::ResidualNorm
    } else if name == "moe_align"@ {
        Work::Align
    } else if name == "moe_tiles"@ {
        Work::Tile
    } else if name == "spec_copy"@ || name == "splash_image_copy"@ || name == "spec_copy_words"@ {
        Work::Patch
    } else if name == "spec_argmax"@ {
        Work::Argmax
    } else if name == "gemma_merge"@ || name == "qwen_attention_merge"@ {
        Work::MergeParts
    } else if name == "qwen3_head_rope"@ {
        Work::HeadTurn
    } else if name == "qwen3_attention"@ {
        Work::BatchAttend
    } else if name == "qwen3_pool"@ {
        Work::Pool
    } else if name == "qwen3_score"@ {
        Work::Score
    } else if name == "linear"@ || name == "linear_q8_r1"@ || name == "linear_kquant1"@ {
        Work::Multiply { columns: 4, rows: 1 }
    } else if name == "linear_kquant2"@ {
        Work::Multiply { columns: 16, rows: 2 }
    } else if name == "linear_kquant3"@ {
        Work::Multiply { columns: 16, rows: 3 }
    } else if name == "linear_kquant4"@ {
        Work::Multiply { columns: 16, rows: 4 }
    } else if name == "gemma_full5"@ {
        Work::Multiply { columns: 16, rows: 5 }
    } else if name == "gemma_full6"@ {
        Work::Multiply { columns: 16, rows: 6 }
    } else if name == "gemma_full7"@ {
        Work::Multiply { columns: 16, rows: 7 }
    } else if name == "gemma_full8"@ {
        Work::Multiply { columns: 16, rows: 8 }
    } else if name == "laguna_dense_f32"@ || name == "muse_q8_f32_32"@ {
        Work::Multiply { columns: 16, rows: 32 }
    } else if name == "linear_q8_r4"@ {
        Work::Multiply { columns: 4, rows: 4 }
    } else if name == "linear_q8_r8"@ {
        Work::Multiply { columns: 4, rows: 8 }
    } else if name == "linear_q8_r16"@ {
        Work::Multiply { columns: 4, rows: 16 }
    } else if name == "muse_q8_f32_16"@ {
        Work::Multiply { columns: 16, rows: 16 }
    } else if name == "muse_q8_f32_64"@ {
        Work::Multiply { columns: 16, rows: 64 }
    } else if name == "qwen_pair1"@ {
        Work::Multiply { columns: 8, rows: 1 }
    } else if name == "qwen_pair2"@ {
        Work::Multiply { columns: 32, rows: 2 }
    } else if name == "qwen_pair3"@ {
        Work::Multiply { columns: 32, rows: 3 }
    } else if name == "qwen_pair4"@ {
        Work::Multiply { columns: 32, rows: 4 }
    } else if name == "qwen_multi_pair1"@ {
        Work::MultiplyMany { columns: 8, rows: 1 }
    } else if name == "qwen_multi_pair2"@ {
        Work::MultiplyMany { columns: 32, rows: 2 }
    } else if name == "qwen_multi_pair3"@ {
        Work::MultiplyMany { columns: 32, rows: 3 }
    } else if name == "qwen_multi_pair4"@ {
        Work::MultiplyMany { columns: 32, rows: 4 }
    } else if name == "nemo_conv"@ {
        Work::WindowConv
    } else if name == "nemo_conv_commit"@ {
        Work::WindowSlide
    } else if name == "nemo_scan"@ {
        Work::Scan
    } else if name == "nemo_ssd_prepare"@ {
        Work::SpaceGates
    } else if name == "nemo_ssd_matrix"@ {
        Work::SpaceMatrix
    } else if name == "nemo_ssd_delta"@ {
        Work::SpaceDelta
    } else if name == "nemo_ssd_states"@ {
        Work::SpaceStates
    } else if name == "nemo_ssd_output"@ {
        Work::SpaceOutput
    } else if name == "nemo_gated_norm"@ {
        Work::SpaceNorm
    } else if name == "nemo_store"@ {
        Work::Store
    } else if name == "laguna_prefill"@ {
        Work::Append
    } else if name == "nemo_attention_decode"@ {
        Work::DecodeParts
    } else if name == "nemo_route"@ {
        Work::Route
    } else if name == "nemo_up_grouped"@ {
        Work::ExpertsUp
    } else if name == "nemo_up_decode"@ {
        Work::ExpertsUpEach
    } else if name == "nemo_down_grouped"@ {
        Work::ExpertsDown
    } else if name == "nemo_down_decode"@ {
        Work::ExpertsDownEach
    } else if name == "nemo_relu2"@ {
        Work::Square
    } else if name == "nemo_fold"@ {
        Work::Fold
    } else if name == "nemo_state_copy"@ {
        Work::StateCopy
    } else if name == "dn_conv"@ || name == "mlx_dn_conv"@ {
        Work::ShortConv
    } else if name == "dn_qk_norm"@ || name == "mlx_dn_qk_norm"@ || name == "bonsai_dn_qk_norm"@ {
        Work::HeadNorm
    } else if name == "dn_gates"@ || name == "mlx_dn_gates"@ {
        Work::NetGates
    } else if name == "dn_verify"@ || name == "mlx_dn_verify"@ {
        Work::NetVerify
    } else if name == "dn_conv_commit"@ {
        Work::NetSlide
    } else if name == "dn_recurrent"@
        || name == "mlx_dn_recurrent"@
        || name == "mlx_dn_recurrent_quad"@
        || name == "mlx_dn_recurrent_packed"@
        || name == "bonsai_dn_recurrent"@ {
        Work::NetRecur
    } else if name == "dn_chunk_dots"@ || name == "dn_chunk_dots_strict"@ {
        Work::ChunkDots
    } else if name == "dn_chunk_prepare"@ || name == "dn_chunk_prepare_strict"@ {
        Work::ChunkPrepare
    } else if name == "dn_chunk_walk"@ || name == "dn_chunk_walk_strict"@ {
        Work::ChunkWalk
    } else if name == "dn_gated_norm"@
        || name == "mlx_dn_gated_norm"@
        || name == "bonsai_dn_gated_norm"@ {
        Work::NetNorm
    } else if name == "dn_checkpoint"@ {
        Work::EntryCopy
    } else if name == "qwen_qnorm_rope"@ || name == "mlx_qnorm_rope"@ {
        Work::QueryTurn
    } else if name == "qwen_knorm_store"@
        || name == "mlx_knorm_store"@
        || name == "bonsai_knorm_store"@ {
        Work::KeyStore
    } else if name == "attention_query"@
        || name == "mlx_attention_query"@
        || name == "splash_df_query"@ {
        Work::Stage
    } else if name == "mlx_attention_query_grouped"@
        || name == "splash_attention_query_grouped"@
        || name == "splash_attention_query_decode"@ {
        Work::StageTiles
    } else if name == "mlx_attention_prefill"@
        || name == "mlx_attention_prefill_direct"@
        || name == "mlx_attention_prefill_indexed"@
        || name == "mlx_attention_prefill_gqa"@
        || name == "mlx_attention_prefill_split"@
        || name == "bonsai_attention_prefill"@ {
        Work::AppendLimited
    } else if name == "qwen_attention_prefill"@
        || name == "qwen_attention_prefill_strict"@
        || name == "qwen_attention_prefill_split"@
        || name == "qwen_attention_prefill_split_strict"@
        || name == "splash_attention_prefill_grouped"@
        || name == "splash_attention_decode_grouped"@ {
        Work::AppendPrepared
    } else if name == "qwen_attention_prefill_join"@ || name == "splash_attention_decode_join"@ {
        Work::JoinParts
    } else if name == "qwen_attention_decode"@
        || name == "qwen_attention_decode_gqa4"@
        || name == "qwen_attention_decode_gqa8"@
        || name == "mlx_attention_stable"@
        || name == "mlx_attention_verify"@
        || name == "mlx_attention_decode"@
        || name == "bonsai_attention_decode"@ {
        Work::DecodeLimited
    } else if name == "qwen_attn_gate"@ || name == "mlx_attn_gate"@ {
        Work::HeadGate
    } else if name == "qmoe_route"@ {
        Work::ExpertRoute
    } else if name == "qmoe_gu_strict16"@ || name == "qmoe_gu_strict32"@ {
        Work::ExpertPairs
    } else if name == "qmoe_gu_decode"@ {
        Work::ExpertPairsEach
    } else if name == "qmoe_swiglu"@ {
        Work::ExpertGate
    } else if name == "qmoe_down_strict16"@ || name == "qmoe_down_strict32"@ {
        Work::ExpertBack
    } else if name == "qmoe_down_decode"@ {
        Work::ExpertBackEach
    } else if name == "qmoe_fold"@ {
        Work::ExpertFold
    } else if name == "df_tap"@ {
        Work::Tap
    } else if name == "mtp_concat"@ {
        Work::Beside
    } else if name == "mtp_hidden"@ {
        Work::Previous
    } else if name == "mtp_publish"@ {
        Work::Publish
    } else if name == "mtp_advance"@ {
        Work::Advance
    } else if name == "vis_inject"@ {
        Work::Inject
    } else if name == "splash_df_rms"@ {
        Work::DraftNorm
    } else if name == "df_kstore"@ || name == "splash_df_kstore"@ {
        Work::DraftStore
    } else if name == "df_qnorm"@ || name == "splash_df_qnorm"@ {
        Work::DraftTurn
    } else if name == "df_attention"@ {
        Work::DraftAttend
    } else if name == "splash_df_attention_grouped"@ {
        Work::DraftParts
    } else if name == "splash_df_attention_join"@ {
        Work::DraftJoin
    } else if name == "df_conv"@ {
        Work::DraftConv
    } else if name == "df_top16"@ {
        Work::TopParts
    } else if name == "df_top16_merge"@ {
        Work::TopMerge
    } else if name == "df_select"@ {
        Work::Select
    } else if name == "gv_coeff"@ {
        Work::Taps
    } else if name == "gv_resize_h"@ {
        Work::Narrow
    } else if name == "pocr_patches"@ {
        Work::Cut
    } else if name == "pocr_position"@ {
        Work::Position
    } else if name == "vis_bmm32"@ || name == "pocr_patch_mm"@ {
        Work::Biased
    } else if name == "vis_ln"@ {
        Work::Centre
    } else if name == "pocr_heads"@ {
        Work::TowerHeads
    } else if name == "pocr_attention"@ {
        Work::TowerAttend
    } else if name == "pocr_gelu"@ {
        Work::Activate
    } else if name == "pocr_extract"@ {
        Work::Extract
    } else if name == "bonsai_rotate"@ {
        Work::Rotate
    } else if name == "bonsai_embed"@ {
        Work::EmbedRotated
    } else {
        Work::Unknown
    }
}

/// Names are told apart by their length, or by a letter.
proof fn lemma_letters()
    ensures
        "embed"@.len() == 5,
        "mlx_embed"@.len() == 9,
        "mlx_embed"@[5] == 'm',
        "mlx_embed"@[0] == 'm',
        "rms"@.len() == 3,
        "mlx_rms"@.len() == 7,
        "mlx_rms"@[1] == 'l',
        "bonsai_rms"@.len() == 10,
        "bonsai_rms"@[9] == 's',
        "bonsai_rms"@[0] == 'b',
        "bonsai_rms"@[5] == 'i',
        "swiglu"@.len() == 6,
        "swiglu"@[0] == 's',
        "mlx_swiglu"@.len() == 10,
        "mlx_swiglu"@[9] == 'u',
        "mlx_swiglu"@[0] == 'm',
        "mlx_swiglu"@[5] == 'w',
        "residual"@.len() == 8,
        "residual"@[3] == 'i',
        "mlx_residual"@.len() == 12,
        "mlx_residual"@[9] == 'u',
        "mlx_residual"@[11] == 'l',
        "rms_selected"@.len() == 12,
        "rms_selected"@[9] == 't',
        "rms_selected"@[11] == 'd',
        "mlx_rms_selected"@.len() == 16,
        "mlx_rms_selected"@[5] == 'm',
        "mlx_rms_selected"@[15] == 'd',
        "mlx_rms_selected"@[0] == 'm',
        "bonsai_rms_selected"@.len() == 19,
        "bonsai_rms_selected"@[11] == 's',
        "residual_rms"@.len() == 12,
        "residual_rms"@[9] == 'r',
        "residual_rms"@[11] == 's',
        "mlx_residual_rms"@.len() == 16,
        "mlx_residual_rms"@[5] == 'e',
        "mlx_residual_rms"@[15] == 's',
        "mlx_residual_rms"@[0] == 'm',
        "bonsai_residual_rms"@.len() == 19,
        "bonsai_residual_rms"@[11] == 'd',
        "moe_align"@.len() == 9,
        "moe_align"@[5] == 'l',
        "moe_align"@[0] == 'm',
        "moe_tiles"@.len() == 9,
        "moe_tiles"@[5] == 'i',
        "moe_tiles"@[0] == 'm',
        "spec_copy"@.len() == 9,
        "spec_copy"@[5] == 'c',
        "spec_copy"@[0] == 's',
        "splash_image_copy"@.len() == 17,
        "splash_image_copy"@[0] == 's',
        "spec_copy_words"@.len() == 15,
        "spec_copy_words"@[8] == 'y',
        "spec_copy_words"@[12] == 'r',
        "spec_argmax"@.len() == 11,
        "spec_argmax"@[10] == 'x',
        "spec_argmax"@[0] == 's',
        "gemma_merge"@.len() == 11,
        "gemma_merge"@[10] == 'e',
        "gemma_merge"@[0] == 'g',
        "qwen_attention_merge"@.len() == 20,
        "qwen_attention_merge"@[18] == 'g',
        "qwen_attention_merge"@[9] == 'n',
        "qwen3_head_rope"@.len() == 15,
        "qwen3_head_rope"@[8] == 'a',
        "qwen3_head_rope"@[12] == 'o',
        "qwen3_attention"@.len() == 15,
        "qwen3_attention"@[8] == 't',
        "qwen3_attention"@[12] == 'i',
        "qwen3_pool"@.len() == 10,
        "qwen3_pool"@[9] == 'l',
        "qwen3_pool"@[0] == 'q',
        "qwen3_pool"@[5] == '_',
        "qwen3_score"@.len() == 11,
        "qwen3_score"@[10] == 'e',
        "qwen3_score"@[0] == 'q',
        "linear"@.len() == 6,
        "linear"@[0] == 'l',
        "linear_q8_r1"@.len() == 12,
        "linear_q8_r1"@[9] == '_',
        "linear_q8_r1"@[11] == '1',
        "linear_kquant1"@.len() == 14,
        "linear_kquant1"@[1] == 'i',
        "linear_kquant1"@[13] == '1',
        "linear_kquant2"@.len() == 14,
        "linear_kquant2"@[1] == 'i',
        "linear_kquant2"@[13] == '2',
        "linear_kquant3"@.len() == 14,
        "linear_kquant3"@[1] == 'i',
        "linear_kquant3"@[13] == '3',
        "linear_kquant4"@.len() == 14,
        "linear_kquant4"@[1] == 'i',
        "linear_kquant4"@[13] == '4',
        "gemma_full5"@.len() == 11,
        "gemma_full5"@[10] == '5',
        "gemma_full5"@[0] == 'g',
        "gemma_full6"@.len() == 11,
        "gemma_full6"@[10] == '6',
        "gemma_full6"@[0] == 'g',
        "gemma_full7"@.len() == 11,
        "gemma_full7"@[10] == '7',
        "gemma_full7"@[0] == 'g',
        "gemma_full8"@.len() == 11,
        "gemma_full8"@[10] == '8',
        "gemma_full8"@[0] == 'g',
        "laguna_dense_f32"@.len() == 16,
        "laguna_dense_f32"@[5] == 'a',
        "laguna_dense_f32"@[15] == '2',
        "laguna_dense_f32"@[0] == 'l',
        "muse_q8_f32_32"@.len() == 14,
        "muse_q8_f32_32"@[1] == 'u',
        "muse_q8_f32_32"@[13] == '2',
        "linear_q8_r4"@.len() == 12,
        "linear_q8_r4"@[9] == '_',
        "linear_q8_r4"@[11] == '4',
        "linear_q8_r8"@.len() == 12,
        "linear_q8_r8"@[9] == '_',
        "linear_q8_r8"@[11] == '8',
        "linear_q8_r16"@.len() == 13,
        "linear_q8_r16"@[9] == '_',
        "linear_q8_r16"@[0] == 'l',
        "muse_q8_f32_16"@.len() == 14,
        "muse_q8_f32_16"@[1] == 'u',
        "muse_q8_f32_16"@[13] == '6',
        "muse_q8_f32_64"@.len() == 14,
        "muse_q8_f32_64"@[1] == 'u',
        "muse_q8_f32_64"@[13] == '4',
        "qwen_pair1"@.len() == 10,
        "qwen_pair1"@[9] == '1',
        "qwen_pair1"@[0] == 'q',
        "qwen_pair1"@[5] == 'p',
        "qwen_pair2"@.len() == 10,
        "qwen_pair2"@[9] == '2',
        "qwen_pair2"@[0] == 'q',
        "qwen_pair2"@[5] == 'p',
        "qwen_pair3"@.len() == 10,
        "qwen_pair3"@[9] == '3',
        "qwen_pair3"@[0] == 'q',
        "qwen_pair3"@[5] == 'p',
        "qwen_pair4"@.len() == 10,
        "qwen_pair4"@[9] == '4',
        "qwen_pair4"@[0] == 'q',
        "qwen_pair4"@[5] == 'p',
        "qwen_multi_pair1"@.len() == 16,
        "qwen_multi_pair1"@[5] == 'm',
        "qwen_multi_pair1"@[15] == '1',
        "qwen_multi_pair1"@[0] == 'q',
        "qwen_multi_pair2"@.len() == 16,
        "qwen_multi_pair2"@[5] == 'm',
        "qwen_multi_pair2"@[15] == '2',
        "qwen_multi_pair2"@[0] == 'q',
        "qwen_multi_pair3"@.len() == 16,
        "qwen_multi_pair3"@[5] == 'm',
        "qwen_multi_pair3"@[15] == '3',
        "qwen_multi_pair3"@[0] == 'q',
        "qwen_multi_pair4"@.len() == 16,
        "qwen_multi_pair4"@[5] == 'm',
        "qwen_multi_pair4"@[15] == '4',
        "qwen_multi_pair4"@[0] == 'q',
        "nemo_conv"@.len() == 9,
        "nemo_conv"@[5] == 'c',
        "nemo_conv"@[0] == 'n',
        "nemo_conv_commit"@.len() == 16,
        "nemo_conv_commit"@[5] == 'c',
        "nemo_conv_commit"@[15] == 't',
        "nemo_conv_commit"@[0] == 'n',
        "nemo_scan"@.len() == 9,
        "nemo_scan"@[5] == 's',
        "nemo_scan"@[0] == 'n',
        "nemo_ssd_prepare"@.len() == 16,
        "nemo_ssd_prepare"@[5] == 's',
        "nemo_ssd_prepare"@[15] == 'e',
        "nemo_ssd_prepare"@[0] == 'n',
        "nemo_ssd_matrix"@.len() == 15,
        "nemo_ssd_matrix"@[8] == '_',
        "nemo_ssd_matrix"@[12] == 'r',
        "nemo_ssd_delta"@.len() == 14,
        "nemo_ssd_delta"@[1] == 'e',
        "nemo_ssd_delta"@[13] == 'a',
        "nemo_ssd_states"@.len() == 15,
        "nemo_ssd_states"@[8] == '_',
        "nemo_ssd_states"@[12] == 't',
        "nemo_ssd_output"@.len() == 15,
        "nemo_ssd_output"@[8] == '_',
        "nemo_ssd_output"@[12] == 'p',
        "nemo_gated_norm"@.len() == 15,
        "nemo_gated_norm"@[8] == 'e',
        "nemo_gated_norm"@[12] == 'o',
        "nemo_store"@.len() == 10,
        "nemo_store"@[9] == 'e',
        "nemo_store"@[0] == 'n',
        "nemo_store"@[5] == 's',
        "laguna_prefill"@.len() == 14,
        "laguna_prefill"@[1] == 'a',
        "laguna_prefill"@[13] == 'l',
        "nemo_attention_decode"@.len() == 21,
        "nemo_attention_decode"@[0] == 'n',
        "nemo_attention_decode"@[4] == '_',
        "nemo_route"@.len() == 10,
        "nemo_route"@[9] == 'e',
        "nemo_route"@[0] == 'n',
        "nemo_route"@[5] == 'r',
        "nemo_up_grouped"@.len() == 15,
        "nemo_up_grouped"@[8] == 'g',
        "nemo_up_grouped"@[12] == 'p',
        "nemo_up_decode"@.len() == 14,
        "nemo_up_decode"@[1] == 'e',
        "nemo_up_decode"@[13] == 'e',
        "nemo_down_grouped"@.len() == 17,
        "nemo_down_grouped"@[0] == 'n',
        "nemo_down_decode"@.len() == 16,
        "nemo_down_decode"@[5] == 'd',
        "nemo_down_decode"@[15] == 'e',
        "nemo_down_decode"@[0] == 'n',
        "nemo_relu2"@.len() == 10,
        "nemo_relu2"@[9] == '2',
        "nemo_relu2"@[0] == 'n',
        "nemo_relu2"@[5] == 'r',
        "nemo_fold"@.len() == 9,
        "nemo_fold"@[5] == 'f',
        "nemo_fold"@[0] == 'n',
        "nemo_state_copy"@.len() == 15,
        "nemo_state_copy"@[8] == 't',
        "nemo_state_copy"@[12] == 'o',
        "dn_conv"@.len() == 7,
        "dn_conv"@[1] == 'n',
        "mlx_dn_conv"@.len() == 11,
        "mlx_dn_conv"@[10] == 'v',
        "mlx_dn_conv"@[0] == 'm',
        "dn_qk_norm"@.len() == 10,
        "dn_qk_norm"@[9] == 'm',
        "dn_qk_norm"@[0] == 'd',
        "dn_qk_norm"@[5] == '_',
        "mlx_dn_qk_norm"@.len() == 14,
        "mlx_dn_qk_norm"@[1] == 'l',
        "mlx_dn_qk_norm"@[13] == 'm',
        "bonsai_dn_qk_norm"@.len() == 17,
        "bonsai_dn_qk_norm"@[0] == 'b',
        "dn_gates"@.len() == 8,
        "dn_gates"@[3] == 'g',
        "mlx_dn_gates"@.len() == 12,
        "mlx_dn_gates"@[9] == 't',
        "mlx_dn_gates"@[11] == 's',
        "dn_verify"@.len() == 9,
        "dn_verify"@[5] == 'r',
        "dn_verify"@[0] == 'd',
        "mlx_dn_verify"@.len() == 13,
        "mlx_dn_verify"@[9] == 'r',
        "mlx_dn_verify"@[0] == 'm',
        "dn_conv_commit"@.len() == 14,
        "dn_conv_commit"@[1] == 'n',
        "dn_conv_commit"@[13] == 't',
        "dn_recurrent"@.len() == 12,
        "dn_recurrent"@[9] == 'e',
        "dn_recurrent"@[11] == 't',
        "mlx_dn_recurrent"@.len() == 16,
        "mlx_dn_recurrent"@[5] == 'n',
        "mlx_dn_recurrent"@[15] == 't',
        "mlx_dn_recurrent"@[0] == 'm',
        "mlx_dn_recurrent_quad"@.len() == 21,
        "mlx_dn_recurrent_quad"@[0] == 'm',
        "mlx_dn_recurrent_quad"@[4] == 'd',
        "mlx_dn_recurrent_packed"@.len() == 23,
        "mlx_dn_recurrent_packed"@[0] == 'm',
        "bonsai_dn_recurrent"@.len() == 19,
        "bonsai_dn_recurrent"@[11] == 'e',
        "dn_chunk_dots"@.len() == 13,
        "dn_chunk_dots"@[9] == 'd',
        "dn_chunk_dots"@[0] == 'd',
        "dn_chunk_dots_strict"@.len() == 20,
        "dn_chunk_dots_strict"@[18] == 'c',
        "dn_chunk_dots_strict"@[9] == 'd',
        "dn_chunk_prepare"@.len() == 16,
        "dn_chunk_prepare"@[5] == 'u',
        "dn_chunk_prepare"@[15] == 'e',
        "dn_chunk_prepare"@[0] == 'd',
        "dn_chunk_prepare_strict"@.len() == 23,
        "dn_chunk_prepare_strict"@[0] == 'd',
        "dn_chunk_walk"@.len() == 13,
        "dn_chunk_walk"@[9] == 'w',
        "dn_chunk_walk"@[0] == 'd',
        "dn_chunk_walk_strict"@.len() == 20,
        "dn_chunk_walk_strict"@[18] == 'c',
        "dn_chunk_walk_strict"@[9] == 'w',
        "dn_gated_norm"@.len() == 13,
        "dn_gated_norm"@[9] == 'n',
        "dn_gated_norm"@[0] == 'd',
        "mlx_dn_gated_norm"@.len() == 17,
        "mlx_dn_gated_norm"@[0] == 'm',
        "bonsai_dn_gated_norm"@.len() == 20,
        "bonsai_dn_gated_norm"@[18] == 'r',
        "bonsai_dn_gated_norm"@[9] == '_',
        "dn_checkpoint"@.len() == 13,
        "dn_checkpoint"@[9] == 'o',
        "dn_checkpoint"@[0] == 'd',
        "qwen_qnorm_rope"@.len() == 15,
        "qwen_qnorm_rope"@[8] == 'r',
        "qwen_qnorm_rope"@[12] == 'o',
        "mlx_qnorm_rope"@.len() == 14,
        "mlx_qnorm_rope"@[1] == 'l',
        "mlx_qnorm_rope"@[13] == 'e',
        "qwen_knorm_store"@.len() == 16,
        "qwen_knorm_store"@[5] == 'k',
        "qwen_knorm_store"@[15] == 'e',
        "qwen_knorm_store"@[0] == 'q',
        "mlx_knorm_store"@.len() == 15,
        "mlx_knorm_store"@[8] == 'm',
        "mlx_knorm_store"@[12] == 'o',
        "bonsai_knorm_store"@.len() == 18,
        "bonsai_knorm_store"@[16] == 'r',
        "attention_query"@.len() == 15,
        "attention_query"@[8] == 'n',
        "attention_query"@[12] == 'e',
        "mlx_attention_query"@.len() == 19,
        "mlx_attention_query"@[11] == 'o',
        "splash_df_query"@.len() == 15,
        "splash_df_query"@[8] == 'f',
        "splash_df_query"@[12] == 'e',
        "mlx_attention_query_grouped"@.len() == 27,
        "mlx_attention_query_grouped"@[14] == 'q',
        "splash_attention_query_grouped"@.len() == 30,
        "splash_attention_query_decode"@.len() == 29,
        "splash_attention_query_decode"@[0] == 's',
        "mlx_attention_prefill"@.len() == 21,
        "mlx_attention_prefill"@[0] == 'm',
        "mlx_attention_prefill"@[4] == 'a',
        "mlx_attention_prefill_direct"@.len() == 28,
        "mlx_attention_prefill_direct"@[0] == 'm',
        "mlx_attention_prefill_indexed"@.len() == 29,
        "mlx_attention_prefill_indexed"@[0] == 'm',
        "mlx_attention_prefill_gqa"@.len() == 25,
        "mlx_attention_prefill_split"@.len() == 27,
        "mlx_attention_prefill_split"@[14] == 'p',
        "bonsai_attention_prefill"@.len() == 24,
        "bonsai_attention_prefill"@[0] == 'b',
        "qwen_attention_prefill"@.len() == 22,
        "qwen_attention_prefill_strict"@.len() == 29,
        "qwen_attention_prefill_strict"@[0] == 'q',
        "qwen_attention_prefill_split"@.len() == 28,
        "qwen_attention_prefill_split"@[0] == 'q',
        "qwen_attention_prefill_split_strict"@.len() == 35,
        "splash_attention_prefill_grouped"@.len() == 32,
        "splash_attention_decode_grouped"@.len() == 31,
        "qwen_attention_prefill_join"@.len() == 27,
        "qwen_attention_prefill_join"@[14] == '_',
        "splash_attention_decode_join"@.len() == 28,
        "splash_attention_decode_join"@[0] == 's',
        "qwen_attention_decode"@.len() == 21,
        "qwen_attention_decode"@[0] == 'q',
        "qwen_attention_decode"@[4] == '_',
        "qwen_attention_decode_gqa4"@.len() == 26,
        "qwen_attention_decode_gqa4"@[25] == '4',
        "qwen_attention_decode_gqa8"@.len() == 26,
        "qwen_attention_decode_gqa8"@[25] == '8',
        "mlx_attention_stable"@.len() == 20,
        "mlx_attention_stable"@[18] == 'l',
        "mlx_attention_stable"@[9] == 't',
        "mlx_attention_verify"@.len() == 20,
        "mlx_attention_verify"@[18] == 'f',
        "mlx_attention_verify"@[9] == 't',
        "mlx_attention_decode"@.len() == 20,
        "mlx_attention_decode"@[18] == 'd',
        "mlx_attention_decode"@[9] == 't',
        "bonsai_attention_decode"@.len() == 23,
        "bonsai_attention_decode"@[0] == 'b',
        "qwen_attn_gate"@.len() == 14,
        "qwen_attn_gate"@[1] == 'w',
        "qwen_attn_gate"@[13] == 'e',
        "mlx_attn_gate"@.len() == 13,
        "mlx_attn_gate"@[9] == 'g',
        "mlx_attn_gate"@[0] == 'm',
        "qmoe_route"@.len() == 10,
        "qmoe_route"@[9] == 'e',
        "qmoe_route"@[0] == 'q',
        "qmoe_route"@[5] == 'r',
        "qmoe_gu_strict16"@.len() == 16,
        "qmoe_gu_strict16"@[5] == 'g',
        "qmoe_gu_strict16"@[15] == '6',
        "qmoe_gu_strict16"@[0] == 'q',
        "qmoe_gu_strict32"@.len() == 16,
        "qmoe_gu_strict32"@[5] == 'g',
        "qmoe_gu_strict32"@[15] == '2',
        "qmoe_gu_strict32"@[0] == 'q',
        "qmoe_gu_decode"@.len() == 14,
        "qmoe_gu_decode"@[1] == 'm',
        "qmoe_gu_decode"@[13] == 'e',
        "qmoe_swiglu"@.len() == 11,
        "qmoe_swiglu"@[10] == 'u',
        "qmoe_swiglu"@[0] == 'q',
        "qmoe_down_strict16"@.len() == 18,
        "qmoe_down_strict16"@[16] == '1',
        "qmoe_down_strict32"@.len() == 18,
        "qmoe_down_strict32"@[16] == '3',
        "qmoe_down_decode"@.len() == 16,
        "qmoe_down_decode"@[5] == 'd',
        "qmoe_down_decode"@[15] == 'e',
        "qmoe_down_decode"@[0] == 'q',
        "qmoe_fold"@.len() == 9,
        "qmoe_fold"@[5] == 'f',
        "qmoe_fold"@[0] == 'q',
        "df_tap"@.len() == 6,
        "df_tap"@[0] == 'd',
        "mtp_concat"@.len() == 10,
        "mtp_concat"@[9] == 't',
        "mtp_concat"@[0] == 'm',
        "mtp_concat"@[5] == 'o',
        "mtp_hidden"@.len() == 10,
        "mtp_hidden"@[9] == 'n',
        "mtp_hidden"@[0] == 'm',
        "mtp_hidden"@[5] == 'i',
        "mtp_publish"@.len() == 11,
        "mtp_publish"@[10] == 'h',
        "mtp_publish"@[0] == 'm',
        "mtp_advance"@.len() == 11,
        "mtp_advance"@[10] == 'e',
        "mtp_advance"@[0] == 'm',
        "vis_inject"@.len() == 10,
        "vis_inject"@[9] == 't',
        "vis_inject"@[0] == 'v',
        "vis_inject"@[5] == 'n',
        "splash_df_rms"@.len() == 13,
        "splash_df_rms"@[9] == '_',
        "splash_df_rms"@[0] == 's',
        "df_kstore"@.len() == 9,
        "df_kstore"@[5] == 't',
        "df_kstore"@[0] == 'd',
        "splash_df_kstore"@.len() == 16,
        "splash_df_kstore"@[5] == 'h',
        "splash_df_kstore"@[15] == 'e',
        "splash_df_kstore"@[0] == 's',
        "df_qnorm"@.len() == 8,
        "df_qnorm"@[3] == 'q',
        "splash_df_qnorm"@.len() == 15,
        "splash_df_qnorm"@[8] == 'f',
        "splash_df_qnorm"@[12] == 'o',
        "df_attention"@.len() == 12,
        "df_attention"@[9] == 'i',
        "df_attention"@[11] == 'n',
        "splash_df_attention_grouped"@.len() == 27,
        "splash_df_attention_grouped"@[14] == 'n',
        "splash_df_attention_join"@.len() == 24,
        "splash_df_attention_join"@[0] == 's',
        "df_conv"@.len() == 7,
        "df_conv"@[1] == 'f',
        "df_top16"@.len() == 8,
        "df_top16"@[3] == 't',
        "df_top16_merge"@.len() == 14,
        "df_top16_merge"@[1] == 'f',
        "df_top16_merge"@[13] == 'e',
        "df_select"@.len() == 9,
        "df_select"@[5] == 'l',
        "df_select"@[0] == 'd',
        "gv_coeff"@.len() == 8,
        "gv_coeff"@[3] == 'c',
        "gv_resize_h"@.len() == 11,
        "gv_resize_h"@[10] == 'h',
        "gv_resize_h"@[0] == 'g',
        "pocr_patches"@.len() == 12,
        "pocr_patches"@[9] == 'h',
        "pocr_patches"@[11] == 's',
        "pocr_position"@.len() == 13,
        "pocr_position"@[9] == 't',
        "pocr_position"@[0] == 'p',
        "vis_bmm32"@.len() == 9,
        "vis_bmm32"@[5] == 'm',
        "vis_bmm32"@[0] == 'v',
        "pocr_patch_mm"@.len() == 13,
        "pocr_patch_mm"@[9] == 'h',
        "pocr_patch_mm"@[0] == 'p',
        "vis_ln"@.len() == 6,
        "vis_ln"@[0] == 'v',
        "pocr_heads"@.len() == 10,
        "pocr_heads"@[9] == 's',
        "pocr_heads"@[0] == 'p',
        "pocr_heads"@[5] == 'h',
        "pocr_attention"@.len() == 14,
        "pocr_attention"@[1] == 'o',
        "pocr_attention"@[13] == 'n',
        "pocr_gelu"@.len() == 9,
        "pocr_gelu"@[5] == 'g',
        "pocr_gelu"@[0] == 'p',
        "pocr_extract"@.len() == 12,
        "pocr_extract"@[9] == 'a',
        "pocr_extract"@[11] == 't',
        "bonsai_rotate"@.len() == 13,
        "bonsai_rotate"@[9] == 't',
        "bonsai_rotate"@[0] == 'b',
        "bonsai_embed"@.len() == 12,
        "bonsai_embed"@[9] == 'b',
        "bonsai_embed"@[11] == 'd',
{
    reveal_strlit("embed");
    reveal_strlit("mlx_embed");
    reveal_strlit("rms");
    reveal_strlit("mlx_rms");
    reveal_strlit("bonsai_rms");
    reveal_strlit("swiglu");
    reveal_strlit("mlx_swiglu");
    reveal_strlit("residual");
    reveal_strlit("mlx_residual");
    reveal_strlit("rms_selected");
    reveal_strlit("mlx_rms_selected");
    reveal_strlit("bonsai_rms_selected");
    reveal_strlit("residual_rms");
    reveal_strlit("mlx_residual_rms");
    reveal_strlit("bonsai_residual_rms");
    reveal_strlit("moe_align");
    reveal_strlit("moe_tiles");
    reveal_strlit("spec_copy");
    reveal_strlit("splash_image_copy");
    reveal_strlit("spec_copy_words");
    reveal_strlit("spec_argmax");
    reveal_strlit("gemma_merge");
    reveal_strlit("qwen_attention_merge");
    reveal_strlit("qwen3_head_rope");
    reveal_strlit("qwen3_attention");
    reveal_strlit("qwen3_pool");
    reveal_strlit("qwen3_score");
    reveal_strlit("linear");
    reveal_strlit("linear_q8_r1");
    reveal_strlit("linear_kquant1");
    reveal_strlit("linear_kquant2");
    reveal_strlit("linear_kquant3");
    reveal_strlit("linear_kquant4");
    reveal_strlit("gemma_full5");
    reveal_strlit("gemma_full6");
    reveal_strlit("gemma_full7");
    reveal_strlit("gemma_full8");
    reveal_strlit("laguna_dense_f32");
    reveal_strlit("muse_q8_f32_32");
    reveal_strlit("linear_q8_r4");
    reveal_strlit("linear_q8_r8");
    reveal_strlit("linear_q8_r16");
    reveal_strlit("muse_q8_f32_16");
    reveal_strlit("muse_q8_f32_64");
    reveal_strlit("qwen_pair1");
    reveal_strlit("qwen_pair2");
    reveal_strlit("qwen_pair3");
    reveal_strlit("qwen_pair4");
    reveal_strlit("qwen_multi_pair1");
    reveal_strlit("qwen_multi_pair2");
    reveal_strlit("qwen_multi_pair3");
    reveal_strlit("qwen_multi_pair4");
    reveal_strlit("nemo_conv");
    reveal_strlit("nemo_conv_commit");
    reveal_strlit("nemo_scan");
    reveal_strlit("nemo_ssd_prepare");
    reveal_strlit("nemo_ssd_matrix");
    reveal_strlit("nemo_ssd_delta");
    reveal_strlit("nemo_ssd_states");
    reveal_strlit("nemo_ssd_output");
    reveal_strlit("nemo_gated_norm");
    reveal_strlit("nemo_store");
    reveal_strlit("laguna_prefill");
    reveal_strlit("nemo_attention_decode");
    reveal_strlit("nemo_route");
    reveal_strlit("nemo_up_grouped");
    reveal_strlit("nemo_up_decode");
    reveal_strlit("nemo_down_grouped");
    reveal_strlit("nemo_down_decode");
    reveal_strlit("nemo_relu2");
    reveal_strlit("nemo_fold");
    reveal_strlit("nemo_state_copy");
    reveal_strlit("dn_conv");
    reveal_strlit("mlx_dn_conv");
    reveal_strlit("dn_qk_norm");
    reveal_strlit("mlx_dn_qk_norm");
    reveal_strlit("bonsai_dn_qk_norm");
    reveal_strlit("dn_gates");
    reveal_strlit("mlx_dn_gates");
    reveal_strlit("dn_verify");
    reveal_strlit("mlx_dn_verify");
    reveal_strlit("dn_conv_commit");
    reveal_strlit("dn_recurrent");
    reveal_strlit("mlx_dn_recurrent");
    reveal_strlit("mlx_dn_recurrent_quad");
    reveal_strlit("mlx_dn_recurrent_packed");
    reveal_strlit("bonsai_dn_recurrent");
    reveal_strlit("dn_chunk_dots");
    reveal_strlit("dn_chunk_dots_strict");
    reveal_strlit("dn_chunk_prepare");
    reveal_strlit("dn_chunk_prepare_strict");
    reveal_strlit("dn_chunk_walk");
    reveal_strlit("dn_chunk_walk_strict");
    reveal_strlit("dn_gated_norm");
    reveal_strlit("mlx_dn_gated_norm");
    reveal_strlit("bonsai_dn_gated_norm");
    reveal_strlit("dn_checkpoint");
    reveal_strlit("qwen_qnorm_rope");
    reveal_strlit("mlx_qnorm_rope");
    reveal_strlit("qwen_knorm_store");
    reveal_strlit("mlx_knorm_store");
    reveal_strlit("bonsai_knorm_store");
    reveal_strlit("attention_query");
    reveal_strlit("mlx_attention_query");
    reveal_strlit("splash_df_query");
    reveal_strlit("mlx_attention_query_grouped");
    reveal_strlit("splash_attention_query_grouped");
    reveal_strlit("splash_attention_query_decode");
    reveal_strlit("mlx_attention_prefill");
    reveal_strlit("mlx_attention_prefill_direct");
    reveal_strlit("mlx_attention_prefill_indexed");
    reveal_strlit("mlx_attention_prefill_gqa");
    reveal_strlit("mlx_attention_prefill_split");
    reveal_strlit("bonsai_attention_prefill");
    reveal_strlit("qwen_attention_prefill");
    reveal_strlit("qwen_attention_prefill_strict");
    reveal_strlit("qwen_attention_prefill_split");
    reveal_strlit("qwen_attention_prefill_split_strict");
    reveal_strlit("splash_attention_prefill_grouped");
    reveal_strlit("splash_attention_decode_grouped");
    reveal_strlit("qwen_attention_prefill_join");
    reveal_strlit("splash_attention_decode_join");
    reveal_strlit("qwen_attention_decode");
    reveal_strlit("qwen_attention_decode_gqa4");
    reveal_strlit("qwen_attention_decode_gqa8");
    reveal_strlit("mlx_attention_stable");
    reveal_strlit("mlx_attention_verify");
    reveal_strlit("mlx_attention_decode");
    reveal_strlit("bonsai_attention_decode");
    reveal_strlit("qwen_attn_gate");
    reveal_strlit("mlx_attn_gate");
    reveal_strlit("qmoe_route");
    reveal_strlit("qmoe_gu_strict16");
    reveal_strlit("qmoe_gu_strict32");
    reveal_strlit("qmoe_gu_decode");
    reveal_strlit("qmoe_swiglu");
    reveal_strlit("qmoe_down_strict16");
    reveal_strlit("qmoe_down_strict32");
    reveal_strlit("qmoe_down_decode");
    reveal_strlit("qmoe_fold");
    reveal_strlit("df_tap");
    reveal_strlit("mtp_concat");
    reveal_strlit("mtp_hidden");
    reveal_strlit("mtp_publish");
    reveal_strlit("mtp_advance");
    reveal_strlit("vis_inject");
    reveal_strlit("splash_df_rms");
    reveal_strlit("df_kstore");
    reveal_strlit("splash_df_kstore");
    reveal_strlit("df_qnorm");
    reveal_strlit("splash_df_qnorm");
    reveal_strlit("df_attention");
    reveal_strlit("splash_df_attention_grouped");
    reveal_strlit("splash_df_attention_join");
    reveal_strlit("df_conv");
    reveal_strlit("df_top16");
    reveal_strlit("df_top16_merge");
    reveal_strlit("df_select");
    reveal_strlit("gv_coeff");
    reveal_strlit("gv_resize_h");
    reveal_strlit("pocr_patches");
    reveal_strlit("pocr_position");
    reveal_strlit("vis_bmm32");
    reveal_strlit("pocr_patch_mm");
    reveal_strlit("vis_ln");
    reveal_strlit("pocr_heads");
    reveal_strlit("pocr_attention");
    reveal_strlit("pocr_gelu");
    reveal_strlit("pocr_extract");
    reveal_strlit("bonsai_rotate");
    reveal_strlit("bonsai_embed");
}

/// Kernels of every family.
pub proof fn lemma_shared_names()
    ensures
        work("embed"@) == Work::Embed,
        work("mlx_embed"@) == Work::Embed,
        work("rms"@) == Work::Norm,
        work("mlx_rms"@) == Work::Norm,
        work("bonsai_rms"@) == Work::Norm,
        work("swiglu"@) == Work::Gate,
        work("mlx_swiglu"@) == Work::Gate,
        work("residual"@) == Work::Residual,
        work("mlx_residual"@) == Work::Residual,
        work("rms_selected"@) == Work::NormPicked,
        work("mlx_rms_selected"@) == Work::NormPicked,
        work("bonsai_rms_selected"@) == Work::NormPicked,
        work("residual_rms"@) == Work::ResidualNorm,
        work("mlx_residual_rms"@) == Work::ResidualNorm,
        work("bonsai_residual_rms"@) == Work::ResidualNorm,
        work("moe_align"@) == Work::Align,
        work("moe_tiles"@) == Work::Tile,
        work("spec_copy"@) == Work::Patch,
        work("splash_image_copy"@) == Work::Patch,
        work("spec_copy_words"@) == Work::Patch,
        work("spec_argmax"@) == Work::Argmax,
        work("gemma_merge"@) == Work::MergeParts,
        work("qwen_attention_merge"@) == Work::MergeParts,
{
    lemma_letters();
}

/// Kernels of the text encoder.
pub proof fn lemma_encoder_names()
    ensures
        work("qwen3_head_rope"@) == Work::HeadTurn,
        work("qwen3_attention"@) == Work::BatchAttend,
        work("qwen3_pool"@) == Work::Pool,
        work("qwen3_score"@) == Work::Score,
{
    lemma_letters();
}

/// Kernels that multiply rows by one plane.
pub proof fn lemma_planes_names()
    ensures
        work("linear"@) == (Work::Multiply { columns: 4, rows: 1 }),
        work("linear_q8_r1"@) == (Work::Multiply { columns: 4, rows: 1 }),
        work("linear_kquant1"@) == (Work::Multiply { columns: 4, rows: 1 }),
        work("linear_kquant2"@) == (Work::Multiply { columns: 16, rows: 2 }),
        work("linear_kquant3"@) == (Work::Multiply { columns: 16, rows: 3 }),
        work("linear_kquant4"@) == (Work::Multiply { columns: 16, rows: 4 }),
        work("gemma_full5"@) == (Work::Multiply { columns: 16, rows: 5 }),
        work("gemma_full6"@) == (Work::Multiply { columns: 16, rows: 6 }),
        work("gemma_full7"@) == (Work::Multiply { columns: 16, rows: 7 }),
        work("gemma_full8"@) == (Work::Multiply { columns: 16, rows: 8 }),
        work("laguna_dense_f32"@) == (Work::Multiply { columns: 16, rows: 32 }),
        work("muse_q8_f32_32"@) == (Work::Multiply { columns: 16, rows: 32 }),
        work("linear_q8_r4"@) == (Work::Multiply { columns: 4, rows: 4 }),
        work("linear_q8_r8"@) == (Work::Multiply { columns: 4, rows: 8 }),
        work("linear_q8_r16"@) == (Work::Multiply { columns: 4, rows: 16 }),
        work("muse_q8_f32_16"@) == (Work::Multiply { columns: 16, rows: 16 }),
        work("muse_q8_f32_64"@) == (Work::Multiply { columns: 16, rows: 64 }),
        work("qwen_pair1"@) == (Work::Multiply { columns: 8, rows: 1 }),
        work("qwen_pair2"@) == (Work::Multiply { columns: 32, rows: 2 }),
        work("qwen_pair3"@) == (Work::Multiply { columns: 32, rows: 3 }),
        work("qwen_pair4"@) == (Work::Multiply { columns: 32, rows: 4 }),
        work("qwen_multi_pair1"@) == (Work::MultiplyMany { columns: 8, rows: 1 }),
        work("qwen_multi_pair2"@) == (Work::MultiplyMany { columns: 32, rows: 2 }),
        work("qwen_multi_pair3"@) == (Work::MultiplyMany { columns: 32, rows: 3 }),
        work("qwen_multi_pair4"@) == (Work::MultiplyMany { columns: 32, rows: 4 }),
{
    lemma_letters();
}

/// Kernels of the state-space family.
pub proof fn lemma_nemotron_names()
    ensures
        work("nemo_conv"@) == Work::WindowConv,
        work("nemo_conv_commit"@) == Work::WindowSlide,
        work("nemo_scan"@) == Work::Scan,
        work("nemo_ssd_prepare"@) == Work::SpaceGates,
        work("nemo_ssd_matrix"@) == Work::SpaceMatrix,
        work("nemo_ssd_delta"@) == Work::SpaceDelta,
        work("nemo_ssd_states"@) == Work::SpaceStates,
        work("nemo_ssd_output"@) == Work::SpaceOutput,
        work("nemo_gated_norm"@) == Work::SpaceNorm,
        work("nemo_store"@) == Work::Store,
        work("laguna_prefill"@) == Work::Append,
        work("nemo_attention_decode"@) == Work::DecodeParts,
        work("nemo_route"@) == Work::Route,
        work("nemo_up_grouped"@) == Work::ExpertsUp,
        work("nemo_up_decode"@) == Work::ExpertsUpEach,
        work("nemo_down_grouped"@) == Work::ExpertsDown,
        work("nemo_down_decode"@) == Work::ExpertsDownEach,
        work("nemo_relu2"@) == Work::Square,
        work("nemo_fold"@) == Work::Fold,
        work("nemo_state_copy"@) == Work::StateCopy,
{
    lemma_letters();
}

/// Kernels of the gated recurrent family.
pub proof fn lemma_hybrid_names()
    ensures
        work("dn_conv"@) == Work::ShortConv,
        work("mlx_dn_conv"@) == Work::ShortConv,
        work("dn_qk_norm"@) == Work::HeadNorm,
        work("mlx_dn_qk_norm"@) == Work::HeadNorm,
        work("bonsai_dn_qk_norm"@) == Work::HeadNorm,
        work("dn_gates"@) == Work::NetGates,
        work("mlx_dn_gates"@) == Work::NetGates,
        work("dn_verify"@) == Work::NetVerify,
        work("mlx_dn_verify"@) == Work::NetVerify,
        work("dn_conv_commit"@) == Work::NetSlide,
        work("dn_recurrent"@) == Work::NetRecur,
        work("mlx_dn_recurrent"@) == Work::NetRecur,
        work("mlx_dn_recurrent_quad"@) == Work::NetRecur,
        work("mlx_dn_recurrent_packed"@) == Work::NetRecur,
        work("bonsai_dn_recurrent"@) == Work::NetRecur,
        work("dn_chunk_dots"@) == Work::ChunkDots,
        work("dn_chunk_dots_strict"@) == Work::ChunkDots,
        work("dn_chunk_prepare"@) == Work::ChunkPrepare,
        work("dn_chunk_prepare_strict"@) == Work::ChunkPrepare,
        work("dn_chunk_walk"@) == Work::ChunkWalk,
        work("dn_chunk_walk_strict"@) == Work::ChunkWalk,
        work("dn_gated_norm"@) == Work::NetNorm,
        work("mlx_dn_gated_norm"@) == Work::NetNorm,
        work("bonsai_dn_gated_norm"@) == Work::NetNorm,
        work("dn_checkpoint"@) == Work::EntryCopy,
        work("qwen_qnorm_rope"@) == Work::QueryTurn,
        work("mlx_qnorm_rope"@) == Work::QueryTurn,
        work("qwen_knorm_store"@) == Work::KeyStore,
        work("mlx_knorm_store"@) == Work::KeyStore,
        work("bonsai_knorm_store"@) == Work::KeyStore,
        work("attention_query"@) == Work::Stage,
        work("mlx_attention_query"@) == Work::Stage,
        work("splash_df_query"@) == Work::Stage,
        work("mlx_attention_query_grouped"@) == Work::StageTiles,
        work("splash_attention_query_grouped"@) == Work::StageTiles,
        work("splash_attention_query_decode"@) == Work::StageTiles,
        work("mlx_attention_prefill"@) == Work::AppendLimited,
        work("mlx_attention_prefill_direct"@) == Work::AppendLimited,
        work("mlx_attention_prefill_indexed"@) == Work::AppendLimited,
        work("mlx_attention_prefill_gqa"@) == Work::AppendLimited,
        work("mlx_attention_prefill_split"@) == Work::AppendLimited,
        work("bonsai_attention_prefill"@) == Work::AppendLimited,
        work("qwen_attention_prefill"@) == Work::AppendPrepared,
        work("qwen_attention_prefill_strict"@) == Work::AppendPrepared,
        work("qwen_attention_prefill_split"@) == Work::AppendPrepared,
        work("qwen_attention_prefill_split_strict"@) == Work::AppendPrepared,
        work("splash_attention_prefill_grouped"@) == Work::AppendPrepared,
        work("splash_attention_decode_grouped"@) == Work::AppendPrepared,
        work("qwen_attention_prefill_join"@) == Work::JoinParts,
        work("splash_attention_decode_join"@) == Work::JoinParts,
        work("qwen_attention_decode"@) == Work::DecodeLimited,
        work("qwen_attention_decode_gqa4"@) == Work::DecodeLimited,
        work("qwen_attention_decode_gqa8"@) == Work::DecodeLimited,
        work("mlx_attention_stable"@) == Work::DecodeLimited,
        work("mlx_attention_verify"@) == Work::DecodeLimited,
        work("mlx_attention_decode"@) == Work::DecodeLimited,
        work("bonsai_attention_decode"@) == Work::DecodeLimited,
        work("qwen_attn_gate"@) == Work::HeadGate,
        work("mlx_attn_gate"@) == Work::HeadGate,
{
    lemma_letters();
}

/// Kernels of the routed family.
pub proof fn lemma_experts_names()
    ensures
        work("qmoe_route"@) == Work::ExpertRoute,
        work("qmoe_gu_strict16"@) == Work::ExpertPairs,
        work("qmoe_gu_strict32"@) == Work::ExpertPairs,
        work("qmoe_gu_decode"@) == Work::ExpertPairsEach,
        work("qmoe_swiglu"@) == Work::ExpertGate,
        work("qmoe_down_strict16"@) == Work::ExpertBack,
        work("qmoe_down_strict32"@) == Work::ExpertBack,
        work("qmoe_down_decode"@) == Work::ExpertBackEach,
        work("qmoe_fold"@) == Work::ExpertFold,
{
    lemma_letters();
}

/// Kernels of the companions.
pub proof fn lemma_drafting_names()
    ensures
        work("df_tap"@) == Work::Tap,
        work("mtp_concat"@) == Work::Beside,
        work("mtp_hidden"@) == Work::Previous,
        work("mtp_publish"@) == Work::Publish,
        work("mtp_advance"@) == Work::Advance,
        work("vis_inject"@) == Work::Inject,
        work("splash_df_rms"@) == Work::DraftNorm,
        work("df_kstore"@) == Work::DraftStore,
        work("splash_df_kstore"@) == Work::DraftStore,
        work("df_qnorm"@) == Work::DraftTurn,
        work("splash_df_qnorm"@) == Work::DraftTurn,
        work("df_attention"@) == Work::DraftAttend,
        work("splash_df_attention_grouped"@) == Work::DraftParts,
        work("splash_df_attention_join"@) == Work::DraftJoin,
        work("df_conv"@) == Work::DraftConv,
        work("df_top16"@) == Work::TopParts,
        work("df_top16_merge"@) == Work::TopMerge,
        work("df_select"@) == Work::Select,
{
    lemma_letters();
}

/// Kernels of the vision tower.
pub proof fn lemma_tower_names()
    ensures
        work("gv_coeff"@) == Work::Taps,
        work("gv_resize_h"@) == Work::Narrow,
        work("pocr_patches"@) == Work::Cut,
        work("pocr_position"@) == Work::Position,
        work("vis_bmm32"@) == Work::Biased,
        work("pocr_patch_mm"@) == Work::Biased,
        work("vis_ln"@) == Work::Centre,
        work("pocr_heads"@) == Work::TowerHeads,
        work("pocr_attention"@) == Work::TowerAttend,
        work("pocr_gelu"@) == Work::Activate,
        work("pocr_extract"@) == Work::Extract,
{
    lemma_letters();
}

/// Kernels of the native ternary lane.
pub proof fn lemma_ternary_names()
    ensures
        work("bonsai_rotate"@) == Work::Rotate,
        work("bonsai_embed"@) == Work::EmbedRotated,
{
    lemma_letters();
}

} // verus!
