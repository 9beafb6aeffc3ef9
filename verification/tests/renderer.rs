use yutani::renderer::blur::{
    blur_passes, chain_sizes, down_binding_source, half, scene_size, up_binding_source, BlurPass,
    Slot, CHAIN_LEVELS, DEFAULT_BLUR_ITERATIONS, MAX_BLUR_ITERATIONS,
};
use yutani::renderer::glow::{enabled, glow_passes, target_sizes, GlowPass};
use yutani::renderer::images::{drawn, quad_indices, quad_range, MAX_PLACEMENTS_PER_FRAME};

#[test]
fn chain_halves_down_to_one_pixel() {
    assert_eq!(half(1), 1);
    assert_eq!(half(7), 3);
    assert_eq!(scene_size(0, 9), (1, 9));
    assert_eq!(chain_sizes(800, 600), vec![(400, 300), (200, 150)]);
    assert_eq!(chain_sizes(0, 3), vec![(1, 1), (1, 1)]);
}

#[test]
fn passes_go_down_and_up() {
    assert_eq!(CHAIN_LEVELS, 2);
    assert!(DEFAULT_BLUR_ITERATIONS <= MAX_BLUR_ITERATIONS);
    let once = vec![
        BlurPass::Down { binding: 0, target: 0 },
        BlurPass::Down { binding: 1, target: 1 },
        BlurPass::Up { binding: 0, target: 0 },
    ];
    assert_eq!(blur_passes(0), once);
    assert_eq!(blur_passes(1), once);
    assert_eq!(blur_passes(3).len(), 7);
    assert_eq!(down_binding_source(0), Slot::Scene);
    assert_eq!(down_binding_source(1), Slot::Chain(0));
    assert_eq!(up_binding_source(0), Slot::Chain(1));
}

#[test]
fn glow_targets_and_passes() {
    assert_eq!(target_sizes(800, 600), ((400, 300), (200, 150)));
    assert_eq!(glow_passes(1), vec![GlowPass::Bright, GlowPass::Down, GlowPass::Up]);
    assert_eq!(glow_passes(4).len(), 9);
    assert!(enabled(true, false) && enabled(false, true) && !enabled(false, false));
}

#[test]
fn quads_are_two_triangles() {
    assert_eq!(quad_indices(2), vec![0, 1, 2, 0, 2, 3, 4, 5, 6, 4, 6, 7]);
    assert_eq!(quad_range(3), (18, 24));
    assert_eq!(drawn(3), 3);
    assert_eq!(drawn(usize::MAX), MAX_PLACEMENTS_PER_FRAME);
}
