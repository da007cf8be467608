//! Options, chunk plans and launches.

use orda::config::{
    is_power_of_two, Backend, ConfigError, KernelConfig, Profile, Reduction,
    DEFAULT_MAX_FUSED_SIZE,
};
use orda::launch::{launch_shape, LaunchError, LaunchShape};
use orda::resolver::{
    ceil_div, chunk_doubling_schedule, chunks_from_raw, default_max_chunks_limit,
    resolve_chunk_size, ChunkPlan, ChunkSize,
};

#[test]
fn profiles() {
    assert!(!KernelConfig::from_profile(Profile::Balanced).fast_math);
    assert!(KernelConfig::from_profile(Profile::Fast).fast_math);
    assert!(!KernelConfig::from_profile(Profile::Debug).fast_math);
}

#[test]
fn pow2() {
    for p in [1, 2, 4, 8, 1024, 32768] {
        assert!(is_power_of_two(p));
    }
    for n in [0, 3, 6, 100, 65535] {
        assert!(!is_power_of_two(n));
    }
}

#[test]
fn validate_rejects_bad_fused_size() {
    let mut c = KernelConfig::default();
    c.max_fused_size = 100; // not a power of two
    assert!(c.validate().is_err());
}

#[test]
fn fixed_chunking() {
    let p = resolve_chunk_size(1000, ChunkSize::Fixed(256), None, None);
    assert_eq!(p.chunk_size, 256);
    assert_eq!(p.num_chunks, ceil_div(1000, 256)); // 4
    // Fixed larger than BT clamps to BT, single chunk.
    let p = resolve_chunk_size(100, ChunkSize::Fixed(4096), None, None);
    assert_eq!(
        p,
        ChunkPlan {
            chunk_size: 100,
            num_chunks: 1
        }
    );
}

#[test]
fn auto_without_vocab_is_single_chunk() {
    let p = resolve_chunk_size(8192, ChunkSize::Auto, None, None);
    assert_eq!(
        p,
        ChunkPlan {
            chunk_size: 8192,
            num_chunks: 1
        }
    );
}

#[test]
fn chunks_from_raw_matches_python_rule() {
    assert_eq!(chunks_from_raw(0, 1), 1); // 0.0
    assert_eq!(chunks_from_raw(149, 100), 1); // 1.49
    // 1.5 -> 2^(floor(log2(1)) + 1) = 2
    assert_eq!(chunks_from_raw(3, 2), 2);
    // 3.0 -> 2^(floor(log2(2)) + 1) = 4
    assert_eq!(chunks_from_raw(3, 1), 4);
    // 6.0 -> 2^(floor(log2(4)) + 1) = 8
    assert_eq!(chunks_from_raw(6, 1), 8);
}

#[test]
fn auto_large_vocab_example() {
    // (8192/1024) * (131072/32768)^2 = 128 -> 128 chunks, clamped to 8192/512 = 16.
    let p = resolve_chunk_size(8192, ChunkSize::Auto, Some(131072), None);
    assert_eq!(p.num_chunks, 16);
    assert_eq!(p.chunk_size, 512);
}

#[test]
fn doubling_schedule_escalates_to_limit() {
    // Start at 4, limit 32 (<BT): 4,8,16,32
    assert_eq!(chunk_doubling_schedule(10_000, 4, 32), vec![4, 8, 16, 32]);
    // Limited by BT.
    assert_eq!(chunk_doubling_schedule(20, 4, 1000), vec![4, 8, 16, 20]);
}

#[test]
fn bad_chunk_limit_is_named() {
    let mut c = KernelConfig::default();
    assert_eq!(c.validate(), Ok(()));
    c.max_chunks = Some(0);
    assert_eq!(c.validate(), Err(ConfigError::MaxChunks { got: 0 }));
    c.max_fused_size = 0;
    assert_eq!(c.validate(), Err(ConfigError::MaxFusedSize { got: 0 }));
}

#[test]
fn presets_drive_the_fast_math_switches() {
    for p in [Profile::Balanced, Profile::Fast, Profile::Debug] {
        let c = KernelConfig::from_profile(p);
        assert_eq!(c.validate(), Ok(()));
        assert_eq!(c.max_fused_size, DEFAULT_MAX_FUSED_SIZE);
        assert_eq!(c.fast_math_exp(), c.fast_math);
        assert_eq!(c.fast_math_log(), c.fast_math);
        assert_eq!(c.fast_math_mul(), c.fast_math);
    }
    assert_eq!(Reduction::default(), Reduction::Mean);
    assert_eq!(Backend::default(), Backend::Auto);
}

#[test]
fn chunk_counts_at_the_edges() {
    assert_eq!(ceil_div(0, 3), 0);
    assert_eq!(ceil_div(9, 3), 3);
    assert_eq!(ceil_div(10, 3), 4);
    // Just below and at the next threshold.
    assert_eq!(chunks_from_raw(2_999, 1_000), 2);
    assert_eq!(chunks_from_raw(3_000, 1_000), 4);
    // The exponent is clamped.
    assert_eq!(chunks_from_raw(u128::MAX, 1), 1 << 60);
}

#[test]
fn automatic_plans_stay_within_their_limits() {
    // Few rows: one chunk, whatever the vocabulary.
    let p = resolve_chunk_size(511, ChunkSize::Auto, Some(1_000_000), None);
    assert_eq!(p, ChunkPlan { chunk_size: 511, num_chunks: 1 });
    // The limit that is given is kept.
    let p = resolve_chunk_size(8192, ChunkSize::Auto, Some(131072), Some(3));
    assert_eq!(p, ChunkPlan { chunk_size: 2731, num_chunks: 3 });
    // A small vocabulary counts by its rows: 8192 / 4096 = 2, so two chunks.
    let p = resolve_chunk_size(8192, ChunkSize::Auto, Some(10), None);
    assert_eq!(p, ChunkPlan { chunk_size: 4096, num_chunks: 2 });
    assert_eq!(default_max_chunks_limit(8192), 32);
    assert_eq!(default_max_chunks_limit(10), 2);
    assert_eq!(resolve_chunk_size(5, ChunkSize::Fixed(0), None, None).chunk_size, 1);
    assert_eq!(ChunkSize::default(), ChunkSize::Auto);
}

#[test]
fn schedules_start_within_their_limits() {
    assert_eq!(chunk_doubling_schedule(100, 0, 8), vec![1, 2, 4, 8]);
    assert_eq!(chunk_doubling_schedule(100, 50, 8), vec![8]);
    assert_eq!(chunk_doubling_schedule(3, 1, 0), vec![1]);
}

#[test]
fn launches_are_checked() {
    assert_eq!(
        launch_shape(2 * 3 * 8, 3, 3, 8, 4, false),
        Ok(LaunchShape { chunk_rows: 6, grid_rows: 6, student_only_flag: 0 })
    );
    assert_eq!(
        launch_shape(2 * 3 * 8, 3, 3, 8, 8, true),
        Ok(LaunchShape { chunk_rows: 6, grid_rows: 3, student_only_flag: 1 })
    );
    assert_eq!(launch_shape(48, 3, 3, 8, 3, false), Err(LaunchError::Block));
    assert_eq!(launch_shape(48, 3, 3, 8, 0, false), Err(LaunchError::Block));
    assert_eq!(launch_shape(47, 3, 3, 8, 4, false), Err(LaunchError::Logits));
    assert_eq!(launch_shape(48, 2, 3, 8, 4, false), Err(LaunchError::Targets));
}
