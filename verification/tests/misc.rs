use pyre::viewer::{next_pass_step, PassStep};
use pyre::integrator::PathIntegrator;
use pyre::sampler::pixel_seed;

#[test]
fn pixel_seed_values() {
    assert_eq!(pixel_seed(0, 0, 0), 0);
    assert_eq!(pixel_seed(1, 2, 3), 18257854714258134944);
    assert_eq!(pixel_seed(640, 480, 17), 4963267014492590151);
    assert_eq!(pixel_seed(640, 480, 17), pixel_seed(640, 480, 17));
    assert_ne!(pixel_seed(640, 480, 17), pixel_seed(640, 480, 18));
}

#[test]
fn integrator_defaults() {
    let i = PathIntegrator::default();
    assert_eq!((i.max_depth, i.min_rr_depth), (8, 3));
}

#[test]
fn render_passes_until_stopped_or_target_reached() {
    assert_eq!(next_pass_step(false, 0, None), PassStep::Render);
    assert_eq!(next_pass_step(false, 1_000_000, None), PassStep::Render);
    assert_eq!(next_pass_step(false, 3, Some(4)), PassStep::Render);
    assert_eq!(next_pass_step(false, 4, Some(4)), PassStep::Finish);
    assert_eq!(next_pass_step(false, 0, Some(0)), PassStep::Finish);
    assert_eq!(next_pass_step(true, 3, Some(4)), PassStep::Stop);
    assert_eq!(next_pass_step(true, 4, Some(4)), PassStep::Stop);
    assert_eq!(next_pass_step(true, 0, None), PassStep::Stop);
}

#[test]
fn pixel_seeds_differ_within_a_pass_and_across_passes() {
    let mut seen = std::collections::HashSet::new();
    for x in 0..64u32 {
        for y in 0..64u32 {
            assert!(seen.insert(pixel_seed(x, y, 7)));
        }
    }
    let mut seen = std::collections::HashSet::new();
    for s in 0..4096u32 {
        assert!(seen.insert(pixel_seed(13, 21, s)));
    }
}
