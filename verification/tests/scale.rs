//! Scale resolution: behaviors, alpha ramps, the clamped screen-size
//! band and purity of resolution.

use imp_graph::scale::{AlphaBehavior, ScaleBehavior, ScaleConfig, ScaledValues};

#[test]
fn world_and_screen_behaviors() {
    assert_eq!(ScaleBehavior::World.apply(5_000_000, 2_000_000), 5_000_000);
    // screen-space sizes divide by the zoom factor
    assert_eq!(ScaleBehavior::Screen.apply(5_000_000, 2_000_000), 2_500_000);
    assert_eq!(ScaleBehavior::Screen.apply(5_000_000, 500_000), 10_000_000);
}

#[test]
fn clamped_base_five_min_five_unbounded_at_zoom_one_is_five() {
    let b = ScaleBehavior::Clamped { min_screen: 5_000_000, max_screen: None };
    assert_eq!(b.apply(5_000_000, 1_000_000), 5_000_000);
}

#[test]
fn clamped_screen_size_never_falls_below_its_minimum() {
    let b = ScaleBehavior::Clamped { min_screen: 5_000_000, max_screen: None };
    for k in [100_000u64, 400_000, 1_000_000, 3_000_000, 10_000_000] {
        let world = b.apply(5_000_000, k);
        let screen = world * k / 1_000_000;
        assert!(screen >= 5_000_000, "k={}: screen {}", k, screen);
    }
}

#[test]
fn clamped_respects_a_finite_upper_bound() {
    let b = ScaleBehavior::Clamped { min_screen: 0, max_screen: Some(18_000_000) };
    // at deep zoom the world size is cut so the screen size stays at 18
    let world = b.apply(5_000_000, 10_000_000);
    assert_eq!(world, 1_800_000);
    assert_eq!(world * 10_000_000 / 1_000_000, 18_000_000);
}

#[test]
fn alpha_behaviors() {
    assert_eq!(AlphaBehavior::Constant.apply(300_000), 1_000_000);
    assert_eq!(AlphaBehavior::ScaleWithZoom.apply(500_000), 500_000);
    assert_eq!(AlphaBehavior::ScaleWithZoom.apply(3_000_000), 1_000_000);
    let fade = AlphaBehavior::Fade { zero_alpha_k: 400_000, full_alpha_k: 900_000 };
    assert_eq!(fade.apply(300_000), 0);
    assert_eq!(fade.apply(650_000), 500_000);
    assert_eq!(fade.apply(950_000), 1_000_000);
    // a descending ramp: full below the full threshold, zero above
    let down = AlphaBehavior::Fade { zero_alpha_k: 900_000, full_alpha_k: 400_000 };
    assert_eq!(down.apply(300_000), 1_000_000);
    assert_eq!(down.apply(650_000), 500_000);
    assert_eq!(down.apply(950_000), 0);
    // equal thresholds mean no fading at all
    let flat = AlphaBehavior::Fade { zero_alpha_k: 700_000, full_alpha_k: 700_000 };
    assert_eq!(flat.apply(100_000), 1_000_000);
}

#[test]
fn resolve_is_pure_bit_identical_output() {
    let config = ScaleConfig::default();
    let a = ScaledValues::new(&config, 700_000);
    let b = ScaledValues::new(&config, 700_000);
    assert_eq!(a.k, b.k);
    assert_eq!(a.node_radius, b.node_radius);
    assert_eq!(a.hit_radius, b.hit_radius);
    assert_eq!(a.label_font_size, b.label_font_size);
    assert_eq!(a.edge_line_width, b.edge_line_width);
    assert_eq!(a.dash_pattern, b.dash_pattern);
    assert_eq!(a.dash_alpha, b.dash_alpha);
    assert_eq!(a.arrow_size, b.arrow_size);
    assert_eq!(a.arrow_alpha, b.arrow_alpha);
    assert_eq!(a.cull_arrows, b.cull_arrows);
    assert_eq!(a.ring_width, b.ring_width);
    assert_eq!(a.ring_offset, b.ring_offset);
}

#[test]
fn stock_config_resolves_exactly_at_zoom_one() {
    let config = ScaleConfig::default();
    let s = ScaledValues::new(&config, 1_000_000);
    assert_eq!(s.node_radius, 5_000_000);
    assert_eq!(s.hit_radius, 12_000_000);
    assert_eq!(s.label_font_size, 10_000_000);
    assert_eq!(s.edge_line_width, 1_500_000);
    assert_eq!(s.dash_pattern, (8_000_000, 4_000_000));
    // at zoom one the dash ramp from 0.4 to 0.9 is saturated
    assert_eq!(s.dash_alpha, 1_000_000);
    assert_eq!(s.arrow_size, 5_000_000);
    assert_eq!(s.arrow_alpha, 1_000_000);
    assert!(!s.cull_arrows);
    assert_eq!(s.ring_width, 1_500_000);
    assert_eq!(s.ring_offset, 2_000_000);
}

#[test]
fn arrows_cull_when_zoomed_far_out() {
    let config = ScaleConfig::default();
    // arrow alpha follows the zoom factor; below the cull threshold of
    // 0.05 the arrows are skipped outright
    let s = ScaledValues::new(&config, 100_000);
    assert_eq!(s.arrow_alpha, 100_000);
    assert!(!s.cull_arrows);
    let s2 = ScaledValues::new(&config, 100_000 / 3);
    assert!(s2.arrow_alpha < 50_000);
    assert!(s2.cull_arrows);
}

#[test]
fn label_font_shrink_is_floored_when_zoomed_out() {
    let config = ScaleConfig::default();
    // below the 0.5 floor the label font stops growing
    let far_out = ScaledValues::new(&config, 200_000);
    assert_eq!(far_out.label_font_size, 20_000_000);
    // above the floor it divides by the zoom; no upper clamp applies
    let far_in = ScaledValues::new(&config, 4_000_000);
    assert_eq!(far_in.label_font_size, 2_500_000);
}

#[test]
fn dash_offset_marches_backward_with_time() {
    let config = ScaleConfig::default();
    let s = ScaledValues::new(&config, 1_000_000);
    // one second at twelve world units per second
    assert_eq!(s.dash_offset(1_000_000, config.edge.flow_speed), -12_000_000);
    assert_eq!(s.dash_offset(0, config.edge.flow_speed), 0);
}
