use paddock_metal::qwen35::attention::split_append;
use paddock_metal::qwen35::geometry::Geometry;
use paddock_metal::qwen35::multimodal::{comparable_images, encoder_budget_allows, encoder_quantum};
use std::time::Duration;

const CHUNK: usize = 512;

#[test]
fn dense_shapes_bound_shared_scratch_and_state_without_27b_padding() {
    for (g, linear, state, conv) in [
        (Geometry::dense_9b(), 24, 524288, 8192),
        (Geometry::dense_27b(), 48, 786432, 10240),
        (Geometry::moe_35b(), 30, 524288, 8192),
    ] {
        assert_eq!(g.validate().unwrap(), g);
        assert_eq!(g.linear_layers(), linear);
        assert_eq!(g.state(), state);
        assert_eq!(g.conv(), conv);
        assert_eq!(g.heads * 256, g.value_heads * 128);
        assert!(g.value_heads * 17408 >= g.heads * 4 * 32 * 256);
        assert!(CHUNK * g.projection_width() >= (CHUNK + 32) * g.heads * 256);
        assert!(g.projection_width() >= g.conv().max(g.width * 2));
    }
    for invalid in [
        Geometry { heads: 24, ..Geometry::dense_9b() },
        Geometry { value_heads: 48, ..Geometry::dense_9b() },
        Geometry { layers: 33, ..Geometry::dense_9b() },
        Geometry { width: 8192, ..Geometry::dense_27b() },
    ] {
        assert!(invalid.validate().is_err());
    }
}

#[test]
fn append_partition_election_requires_its_own_context_and_workspace() {
    for heads in [16, 24] {
        let bytes = 64 * heads as u64 * 4 * 258 * 4;
        assert!(split_append(64, 1089, bytes, heads));
        assert!(!split_append(64, 63, bytes, heads));
        assert!(!split_append(64, 1089, bytes - 1, heads));
        assert!(!split_append(129, 1089, u64::MAX, heads));
        assert!(!split_append(15, 1089, u64::MAX, heads));
        assert!(split_append(128, 256, u64::MAX, heads));
        assert!(!split_append(128, 255, u64::MAX, heads));
    }
}

fn ms(n: u64) -> u128 {
    Duration::from_millis(n).as_nanos()
}

#[test]
fn encoder_groups_cheap_blocks_but_yields_before_expensive_next_block() {
    let budget = ms(64);
    assert!(encoder_budget_allows(ms(1), ms(1), budget));
    assert!(encoder_budget_allows(ms(8), ms(2), budget));
    assert!(encoder_budget_allows(ms(12), ms(6), budget));
    assert!(encoder_budget_allows(ms(20), ms(20), budget));
    assert!(!encoder_budget_allows(ms(50), ms(20), budget));
    assert!(!encoder_budget_allows(Duration::MAX.as_nanos(), ms(1), budget));
    assert!(!encoder_budget_allows(ms(8), ms(2), ms(10)));
    assert!(!encoder_budget_allows(ms(0), ms(0), ms(0)));
}

#[test]
fn encoder_allowance_accounts_for_the_preceding_backbone_pass() {
    assert_eq!(encoder_quantum(ms(0)), ms(128));
    assert_eq!(encoder_quantum(ms(48)), ms(128));
    assert_eq!(encoder_quantum(ms(64)), ms(112));
    assert_eq!(encoder_quantum(ms(100)), ms(76));
    assert_eq!(encoder_quantum(ms(160)), ms(16));
    assert_eq!(encoder_quantum(ms(176)), ms(0));
    assert_eq!(encoder_quantum(Duration::MAX.as_nanos()), ms(0));
}

#[test]
fn cold_image_cohorts_exclude_short_or_asymmetric_work() {
    assert!(comparable_images(&[680, 684, 678, 688]));
    assert!(!comparable_images(&[]));
    assert!(!comparable_images(&[680]));
    assert!(!comparable_images(&[128, 680]));
    assert!(!comparable_images(&[680, 2048]));
    assert!(comparable_images(&[1024, 2048]));
}
