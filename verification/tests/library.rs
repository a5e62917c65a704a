use ourealis_core::eval::Knob;
use ourealis_core::field::{GridShape, HardMask};
use ourealis_core::gpu::{
    bitmap_get, bitmap_words, counter_bits, hash32, pack_bitmap, validate_projection_sizes,
    weight_matrix_layout, BatchSizeError,
};
use ourealis_core::graph::{
    connector_partner, connector_slot, grid_steps, ConnectorAttachments, EdgeKind, NodeId, NodeKind,
};
use ourealis_core::motion::{stream_rng, LookAheadMode};
use ourealis_core::person::{PaceStrategy, Preset};
use ourealis_core::prm::{adjacent_open, Grid4};
use ourealis_core::rng::{mix64, stream_key, uniform_int_from, Rng, Stream};
use ourealis_core::search::{
    candidate_params_hash, canonical_key, contains_key, param_set_id, segment_appearances,
    AttemptOutcome, CandidateRun, NoPenalty, SegmentKey,
};
use rand_chacha::rand_core::{Rng as _, SeedableRng};
use rand_chacha::ChaCha8Rng;
use std::hash::Hasher;

#[test]
fn mix64_matches_splitmix_reference_values() {
    assert_eq!(mix64(0), 0xe220_a839_7b1d_cdaf);
    assert_eq!(mix64(1), 0x910a_2dec_8902_5cc1);
    assert_eq!(mix64(0xdead_beef), 0x4adf_b90f_68c9_eb9b);
}

#[test]
fn stream_key_folds_every_component() {
    assert_eq!(stream_key(42, Stream::LateralOffset, 7, 0), 0x2d06_79d6_78a6_191d);
    assert_eq!(stream_key(42, Stream::Person, 0, 0), 0x25fc_63c5_e376_3e59);
    assert_eq!(Stream::Person.tag(), 1);
    assert_eq!(Stream::Maneuver.tag(), 15);
}

#[test]
fn stream_keys_separate_each_component() {
    let base = stream_key(9, Stream::Prm, 3, 1);
    assert_ne!(base, stream_key(10, Stream::Prm, 3, 1));
    assert_ne!(base, stream_key(9, Stream::PathChoice, 3, 1));
    assert_ne!(base, stream_key(9, Stream::Prm, 4, 1));
    assert_ne!(base, stream_key(9, Stream::Prm, 3, 2));
    let all = [
        Stream::Person, Stream::Prm, Stream::PathChoice, Stream::PaceDrift,
        Stream::LateralOffset, Stream::PositionJitter, Stream::StepPhase, Stream::Gnss,
        Stream::Accelerometer, Stream::Gyroscope, Stream::Magnetometer, Stream::Barometer,
        Stream::RegionEvent, Stream::Multipath, Stream::Maneuver,
    ];
    let keys: Vec<u64> = all.iter().map(|s| stream_key(1, *s, 0, 0)).collect();
    for i in 0..keys.len() {
        for j in 0..i {
            assert_ne!(keys[i], keys[j]);
        }
    }
}

#[test]
fn stream_seeds_the_generator_with_its_key() {
    let mut ours = Rng::stream(5, Stream::Gnss, 2, 3);
    let mut reference = ChaCha8Rng::seed_from_u64(stream_key(5, Stream::Gnss, 2, 3));
    for _ in 0..10 {
        assert_eq!(ours.next_u64(), reference.next_u64());
    }
    assert_eq!(ours.next_u32(), reference.next_u32());
    let mut a = [0u8; 13];
    let mut b = [0u8; 13];
    ours.fill_bytes(&mut a);
    reference.fill_bytes(&mut b);
    assert_eq!(a, b);
}

#[test]
fn reruns_reproduce_the_stream() {
    let mut a = Rng::stream(77, Stream::PaceDrift, 11, 0);
    let mut b = Rng::stream(77, Stream::PaceDrift, 11, 0);
    for _ in 0..32 {
        assert_eq!(a.uniform_int(-5, 17), b.uniform_int(-5, 17));
    }
}

#[test]
fn uniform_int_reduces_one_word() {
    let mut ours = Rng::from_seed(123);
    let mut reference = ChaCha8Rng::seed_from_u64(123);
    for _ in 0..20 {
        let word = reference.next_u64();
        let value = ours.uniform_int(10, 20);
        assert_eq!(value, 10 + (word % 10) as i64);
        assert!((10..20).contains(&value));
    }
}

#[test]
fn uniform_int_of_an_empty_range_is_low() {
    let mut rng = Rng::from_seed(1);
    assert_eq!(rng.uniform_int(5, 5), 5);
    assert_eq!(rng.uniform_int(5, 2), 5);
    assert_eq!(uniform_int_from(3, 3, 99), 3);
    assert_eq!(uniform_int_from(-4, 6, 23), -4 + 3);
    assert_eq!(uniform_int_from(i64::MIN, -1, 5), i64::MIN + 5);
}

#[test]
fn derive_seeds_from_the_next_word() {
    let mut parent = Rng::from_seed(8);
    let mut reference = ChaCha8Rng::seed_from_u64(8);
    let word = reference.next_u64();
    let mut child = parent.derive(0x55);
    let mut expected = ChaCha8Rng::seed_from_u64(mix64(word ^ 0x55));
    assert_eq!(child.next_u64(), expected.next_u64());
    assert_eq!(parent.next_u64(), reference.next_u64());
}

#[test]
fn offset_stream_is_the_lateral_offset_stream() {
    let mut a = stream_rng(3, 4);
    let mut b = Rng::stream(3, Stream::LateralOffset, 4, 0);
    assert_eq!(a.next_u64(), b.next_u64());
}

#[test]
fn hash32_reference_values() {
    assert_eq!(hash32(0), 0);
    assert_eq!(hash32(1), 0x6889_90c0);
    assert_eq!(hash32(0x1234_5678), 0xf5e7_1c96);
}

#[test]
fn hash32_is_injective_on_a_range() {
    let mut seen: Vec<u32> = (0u32..4096).map(hash32).collect();
    seen.sort_unstable();
    seen.dedup();
    assert_eq!(seen.len(), 4096);
}

#[test]
fn counter_bits_reference_values() {
    assert_eq!(counter_bits(7, 3, 1, 10), (5_902_907, 4_600_620));
    let (a, b) = counter_bits(u64::MAX, u32::MAX, u32::MAX, u32::MAX);
    assert!(a < 1 << 24 && b < 1 << 24);
}

#[test]
fn bitmap_words_round_up() {
    assert_eq!(bitmap_words(0), 0);
    assert_eq!(bitmap_words(1), 1);
    assert_eq!(bitmap_words(32), 1);
    assert_eq!(bitmap_words(33), 2);
}

#[test]
fn packed_bitmap_reads_back_the_mask() {
    let mask: Vec<bool> = (0..70).map(|i| i % 3 == 0 || i == 41).collect();
    let words = pack_bitmap(&mask, 70).expect("mask covers the grid");
    assert_eq!(words.len(), 3);
    for cell in 0..70 {
        assert_eq!(bitmap_get(&words, cell), mask[cell]);
    }
    for cell in 70..96 {
        assert!(!bitmap_get(&words, cell));
    }
    assert_eq!(words[0] & 1, 1);
    assert_eq!(words[0] >> 1 & 1, 0);
}

#[test]
fn packing_a_short_mask_is_refused() {
    assert!(pack_bitmap(&[true, false], 3).is_none());
    assert_eq!(pack_bitmap(&[true, false, true], 2), Some(vec![1]));
}

#[test]
fn projection_sizes_are_checked_in_order() {
    assert_eq!(validate_projection_sizes(2, 4, 3, 2, 6, 1), Ok(()));
    assert_eq!(validate_projection_sizes(2, 3, 3, 2, 6, 1), Err(BatchSizeError::CoordinateCount));
    assert_eq!(validate_projection_sizes(2, 4, 3, 2, 5, 1), Err(BatchSizeError::DistanceCount));
    assert_eq!(validate_projection_sizes(2, 4, 8, 8, 64, 1), Err(BatchSizeError::BitmapTooShort));
    assert_eq!(validate_projection_sizes(1, 3, 8, 8, 63, 0), Err(BatchSizeError::CoordinateCount));
}

#[test]
fn weight_vectors_are_laid_out_dim_major() {
    let vectors = vec![vec![1, 2, 3], vec![4, 5, 6]];
    let (modes, dims, values) = weight_matrix_layout(&vectors).expect("same dimension");
    assert_eq!((modes, dims), (2, 3));
    assert_eq!(values, vec![1, 4, 2, 5, 3, 6]);
    assert!(weight_matrix_layout(&[vec![1, 2], vec![3]]).is_none());
    assert_eq!(weight_matrix_layout::<u8>(&[]), Some((0, 0, vec![])));
}

#[test]
fn node_ids_pack_kind_and_index() {
    assert_eq!(NodeId::grid(5), NodeId(5));
    assert_eq!(NodeId::prm(5).0, (1 << 29) | 5);
    assert_eq!(NodeId::connector(7).kind(), NodeKind::Connector);
    assert_eq!(NodeId::coarse(9).kind(), NodeKind::Coarse);
    assert_eq!(NodeId::prm(123).index(), 123);
    assert!(NodeId::grid(3).is_grid());
    assert!(!NodeId::prm(3).is_grid());
    assert_eq!(NodeId::grid(0xFFFF_FFFF).index(), NodeId::INDEX_MASK);
    assert_eq!(NodeId::grid(0xFFFF_FFFF).kind(), NodeKind::Grid);
    assert_eq!(NodeId(7 << 29).kind(), NodeKind::Grid);
    assert_ne!(NodeId::prm(4), NodeId::connector(4));
    assert_eq!(NodeId::KIND_SHIFT, 29);
    assert_ne!(EdgeKind::Plane, EdgeKind::Connector);
}

#[test]
fn connector_endpoints_pair_up() {
    assert_eq!(connector_slot(6), (3, true));
    assert_eq!(connector_slot(7), (3, false));
    assert_eq!(connector_partner(6), 7);
    assert_eq!(connector_partner(7), 6);
    assert_eq!(connector_partner(connector_partner(u32::MAX)), u32::MAX);
}

fn sample_mask() -> HardMask {
    // 4 x 3 grid, row-major; the cell at (1, 1) and (3, 2) are forbidden.
    let mut forbidden = vec![false; 12];
    forbidden[1 * 4 + 1] = true;
    forbidden[2 * 4 + 3] = true;
    HardMask::new(GridShape { width: 4, height: 3 }, forbidden)
}

#[test]
fn hard_mask_pads_and_counts() {
    let mask = HardMask::new(GridShape { width: 3, height: 2 }, vec![true, false, true]);
    assert_eq!(mask.mask(), &[true, false, true, false, false, false]);
    assert_eq!(mask.forbidden_count(), 2);
    assert_eq!(*mask.grid(), GridShape { width: 3, height: 2 });
    let cut = HardMask::new(GridShape { width: 1, height: 2 }, vec![false, true, true, true]);
    assert_eq!(cut.mask(), &[false, true]);
    assert_eq!(cut.forbidden_count(), 1);
    assert_eq!(sample_mask().forbidden_count(), 2);
}

#[test]
fn grid_shape_indexing() {
    let shape = GridShape { width: 4, height: 3 };
    assert_eq!(shape.len(), 12);
    assert_eq!(shape.index(3, 2), 11);
    assert_eq!(shape.coordinates(6), (2, 1));
}

#[test]
fn grid_steps_skip_forbidden_and_outside_cells() {
    let mask = sample_mask();
    // From (0, 0): (1,0), (0,1) are passable, (1,1) is forbidden.
    assert_eq!(grid_steps(&mask, 0, 0), vec![(1, 0), (0, 1)]);
    // From (2, 1): all eight neighbours lie on the grid; (1,1) and (3,2) are forbidden.
    assert_eq!(
        grid_steps(&mask, 2, 1),
        vec![(3, 1), (2, 2), (2, 0), (3, 0), (1, 2), (1, 0)]
    );
}

#[test]
fn passable_ring_sweeps_rows_then_columns() {
    let mask = sample_mask();
    assert_eq!(mask.passable_ring(0, 0, 0), vec![(0, 0)]);
    assert_eq!(mask.passable_ring(1, 1, 0), vec![]);
    assert_eq!(
        mask.passable_ring(1, 1, 1),
        vec![(0, 0), (1, 0), (2, 0), (0, 1), (2, 1), (0, 2), (1, 2), (2, 2)]
    );
    assert_eq!(mask.passable_ring(0, 0, 2), vec![(2, 0), (2, 1), (0, 2), (1, 2), (2, 2)]);
}

#[test]
fn adjacent_open_prefers_north_south_west_east() {
    let mask = vec![vec![false, true, false], vec![true, false, true], vec![false, true, false]];
    assert_eq!(adjacent_open(&mask, 1, 1), Some(Grid4::North));
    assert_eq!(adjacent_open(&mask, 0, 0), Some(Grid4::South));
    assert_eq!(adjacent_open(&mask, 0, 2), Some(Grid4::South));
    let west_only = vec![vec![true, false]];
    assert_eq!(adjacent_open(&west_only, 0, 1), Some(Grid4::West));
    let east_only = vec![vec![false, true]];
    assert_eq!(adjacent_open(&east_only, 0, 0), Some(Grid4::East));
    assert_eq!(adjacent_open(&vec![vec![false, false]], 0, 1), None);
    assert_eq!(adjacent_open(&[], 0, 0), None);
    assert_eq!(adjacent_open(&mask, -1, 1), Some(Grid4::South));
}

#[test]
fn pace_strategy_identifiers() {
    assert_eq!(PaceStrategy::from_u8(0), Some(PaceStrategy::Even));
    assert_eq!(PaceStrategy::from_u8(1), Some(PaceStrategy::PositiveSplit));
    assert_eq!(PaceStrategy::from_u8(2), Some(PaceStrategy::NegativeSplit));
    assert_eq!(PaceStrategy::from_u8(3), None);
    assert_eq!(PaceStrategy::from_u8(255), None);
    assert_ne!(Preset::Jog, Preset::Race);
    assert_ne!(LookAheadMode::WorstCase, LookAheadMode::DistanceWeightedMean);
}

#[test]
fn knob_names() {
    assert_eq!(Knob::TargetSpeed.name(), "target_speed");
    assert_eq!(Knob::StepFrequency.name(), "step_frequency");
    assert_eq!(Knob::BounceAmplitude.name(), "bounce_amplitude_m");
    assert_eq!(Knob::BounceBeta2.name(), "bounce_beta2");
    assert_eq!(Knob::Harmonic2.name(), "harmonic_2_ratio");
    assert_eq!(Knob::Harmonic3.name(), "harmonic_3_ratio");
}

#[test]
fn param_set_id_of_the_defaults() {
    assert_eq!(param_set_id(5, 1600, 800, 3), 0xf96f_0bd9);
    assert_ne!(param_set_id(5, 1600, 800, 3), param_set_id(6, 1600, 800, 3));
    assert_ne!(param_set_id(5, 1600, 800, 3), param_set_id(5, 1600, 801, 3));
}

#[test]
fn candidate_hash_is_xxhash_of_the_parameter_bytes() {
    let mut hasher = twox_hash::XxHash64::with_seed(0);
    hasher.write(&5u64.to_le_bytes());
    hasher.write(&1.6f64.to_le_bytes());
    hasher.write(&0.8f64.to_le_bytes());
    let expected = hasher.finish();
    assert_eq!(candidate_params_hash(5, 1.6f64.to_bits(), 0.8f64.to_bits()), expected);
    assert_ne!(candidate_params_hash(6, 1.6f64.to_bits(), 0.8f64.to_bits()), expected);
}

#[test]
fn segment_keys_do_not_depend_on_direction() {
    let forward = SegmentKey { x0: 1, y0: 5, x1: 3, y1: 2 };
    let backward = SegmentKey { x0: 3, y0: 2, x1: 1, y1: 5 };
    assert_eq!(canonical_key(forward), forward);
    assert_eq!(canonical_key(backward), forward);
    let vertical = SegmentKey { x0: 4, y0: 9, x1: 4, y1: 1 };
    assert_eq!(canonical_key(vertical), SegmentKey { x0: 4, y0: 1, x1: 4, y1: 9 });
}

#[test]
fn segment_appearances_count_candidates() {
    let a = SegmentKey { x0: 0, y0: 0, x1: 1, y1: 0 };
    let b = SegmentKey { x0: 1, y0: 0, x1: 2, y1: 0 };
    let c = SegmentKey { x0: 2, y0: 0, x1: 3, y1: 0 };
    let lists = vec![vec![a, b], vec![b, c], vec![b]];
    assert_eq!(segment_appearances(&lists, b), 3);
    assert_eq!(segment_appearances(&lists, a), 1);
    assert_eq!(segment_appearances(&lists, SegmentKey { x0: 9, y0: 9, x1: 9, y1: 9 }), 1);
    assert!(contains_key(&[a, c], c));
    assert!(!contains_key(&[a, c], b));
    let _ = NoPenalty;
}

#[test]
fn hard_mask_clone_keeps_the_flags() {
    let mask = sample_mask();
    let copy = mask.clone();
    assert_eq!(copy.mask(), mask.mask());
    assert_eq!(copy.forbidden_count(), 2);
    assert_eq!(*copy.grid(), *mask.grid());
}

#[test]
fn attachments_are_recorded_both_ways() {
    let table = ConnectorAttachments::build(&[
        (0, NodeId::grid(5)),
        (1, NodeId::grid(5)),
        (2, NodeId::prm(1)),
    ]);
    assert_eq!(table.endpoints_from(5), Some(&vec![0, 1]));
    assert_eq!(table.endpoints_from(NodeId::prm(1).0), Some(&vec![2]));
    assert_eq!(table.endpoints_from(6), None);
    assert_eq!(table.plane_of(1), Some(NodeId::grid(5)));
    assert_eq!(table.plane_of(2), Some(NodeId::prm(1)));
    assert_eq!(table.plane_of(3), None);
    let mut grown = ConnectorAttachments::new();
    grown.attach(7, NodeId::coarse(2));
    assert_eq!(grown.plane_of(7), Some(NodeId::coarse(2)));
    assert_eq!(grown.endpoints_from(NodeId::coarse(2).0), Some(&vec![7]));
}

#[test]
fn candidate_run_gives_up_after_too_many_rejections() {
    let mut run = CandidateRun::new(3, 1);
    assert!(run.next_attempt());
    assert!(run.record(AttemptOutcome::Rejected));
    assert!(run.next_attempt());
    assert!(!run.record(AttemptOutcome::Rejected));
    assert_eq!(run.accepted(), 0);
    assert_eq!(run.attempts(), 2);
}

#[test]
fn candidate_run_stops_at_k_or_on_failure() {
    let mut run = CandidateRun::new(2, 0);
    assert!(run.next_attempt());
    assert!(run.record(AttemptOutcome::Accepted));
    assert!(run.next_attempt());
    assert!(run.record(AttemptOutcome::Accepted));
    assert!(!run.next_attempt());
    assert_eq!(run.accepted(), 2);

    let mut failing = CandidateRun::new(4, 2);
    assert!(failing.next_attempt());
    assert!(!failing.record(AttemptOutcome::NoPath));
    assert_eq!(failing.accepted(), 0);
}

#[test]
fn candidate_run_spends_at_most_its_budget() {
    let mut run = CandidateRun::new(2, 1);
    let mut searches = 0;
    while run.next_attempt() {
        searches += 1;
        let outcome = if searches % 2 == 0 { AttemptOutcome::Accepted } else { AttemptOutcome::Rejected };
        if !run.record(outcome) {
            break;
        }
    }
    assert!(searches <= 2 * (1 + 1));
    assert_eq!(run.accepted(), 2);
    assert_eq!(searches, 4);
}

#[test]
fn mixed_draws_follow_the_generator_word_by_word() {
    let mut ours = Rng::from_seed(99);
    let mut reference = ChaCha8Rng::seed_from_u64(99);
    assert_eq!(ours.next_u32(), reference.next_u32());
    assert_eq!(ours.next_u64(), reference.next_u64());
    let mut a = [0u8; 5];
    let mut b = [0u8; 5];
    ours.fill_bytes(&mut a);
    reference.fill_bytes(&mut b);
    assert_eq!(a, b);
    // The cut-short word is used up on both sides.
    assert_eq!(ours.next_u32(), reference.next_u32());
    for _ in 0..40 {
        assert_eq!(ours.next_u64(), reference.next_u64());
    }
    let mut empty: [u8; 0] = [];
    ours.fill_bytes(&mut empty);
    assert_eq!(ours.next_u32(), reference.next_u32());
}

#[test]
fn a_cloned_stream_reproduces_the_rest() {
    let mut original = Rng::stream(12, Stream::Barometer, 1, 2);
    original.next_u64();
    let mut copy = original.clone();
    for _ in 0..8 {
        assert_eq!(original.next_u64(), copy.next_u64());
    }
}
