//! Highlight engine behavior: bounds, symmetry, convergence, hold
//! timers and target-set isolation.

use imp_graph::state::HighlightState;

/// The eased step fractions for a step of `dt_us` micro-seconds, in
/// micro-units: the fade-in factor `1 - e^(-6 dt)` and the fade-out
/// decay `e^(-4 dt)`.
fn fade_factors(dt_us: u64) -> (u64, u64) {
    let dt = dt_us as f64 / 1_000_000.0;
    let fade_in = ((1.0 - (-6.0 * dt).exp()) * 1_000_000.0) as u64;
    let fade_out = ((-4.0 * dt).exp() * 1_000_000.0) as u64;
    (fade_in, fade_out)
}

const DT: u64 = 16_667;

#[test]
fn max_intensity_stays_within_unit_for_any_hover_sequence() {
    let edges = vec![(0usize, 1usize), (1, 2), (2, 3)];
    let mut hs = HighlightState::new(4);
    let (fi, fo) = fade_factors(DT);
    let hovers = [
        Some(0),
        Some(2),
        None,
        Some(3),
        Some(3),
        None,
        None,
        Some(1),
    ];
    for (step, h) in hovers.iter().cycle().take(200).enumerate() {
        hs.set_hover(*h, &edges);
        hs.tick(DT, fi, fo);
        let m = hs.max_intensity();
        assert!(m <= 1_000_000, "step {}: max {} out of range", step, m);
    }
}

#[test]
fn edge_intensity_is_symmetric() {
    let edges = vec![(0usize, 1usize)];
    let mut hs = HighlightState::new(3);
    let (fi, fo) = fade_factors(DT);
    hs.set_hover(Some(0), &edges);
    for _ in 0..3 {
        hs.tick(DT, fi, fo);
        assert_eq!(hs.edge_intensity(0, 1), hs.edge_intensity(1, 0));
        assert_eq!(hs.edge_intensity(0, 2), hs.edge_intensity(2, 0));
    }
}

#[test]
fn hovered_intensity_converges_to_one_within_a_thousandth() {
    let edges = vec![(0usize, 1usize)];
    let mut hs = HighlightState::new(2);
    let (fi, fo) = fade_factors(DT);
    hs.set_hover(Some(0), &edges);
    let mut prev = 0u64;
    for _ in 0..600 {
        hs.tick(DT, fi, fo);
        let v = hs.node_intensity(0);
        assert!(v >= prev, "intensity never falls while hovered");
        prev = v;
    }
    assert!(prev >= 999_000, "converged to {} only", prev);
    assert!(prev <= 1_000_000);
}

#[test]
fn hold_timer_freezes_then_strictly_decays_to_zero() {
    let edges = vec![(0usize, 1usize)];
    let mut hs = HighlightState::new(2);
    let (fi, fo) = fade_factors(DT);
    hs.set_hover(Some(0), &edges);
    for _ in 0..10 {
        hs.tick(DT, fi, fo);
    }
    // clearing the hover resets nothing: the hold timer of 0.12s from
    // the hover change still has to run out before fading begins
    hs.set_hover(None, &edges);
    let frozen = hs.node_intensity(0);
    assert!(frozen > 5_000);
    // 120000 / 16667 = 7.2, so seven ticks stay inside the hold time
    for step in 0..7 {
        hs.tick(DT, fi, fo);
        assert_eq!(hs.node_intensity(0), frozen, "tick {} must not decay", step);
    }
    // after the timer expires, the intensity strictly decreases every
    // tick until it falls below the tracking floor, then reads zero
    let mut prev = frozen;
    loop {
        hs.tick(DT, fi, fo);
        let v = hs.node_intensity(0);
        if v == 0 {
            break;
        }
        assert!(v < prev, "decay must be strict: {} -> {}", prev, v);
        assert!(v >= 5_000, "tracked values stay at or above the floor");
        prev = v;
    }
    for _ in 0..5 {
        hs.tick(DT, fi, fo);
        assert_eq!(hs.node_intensity(0), 0);
    }
}

#[test]
fn hover_scenario_keeps_unrelated_node_dark() {
    // nodes [a, b, c] with one link a-b: hovering a lights a and b,
    // while everything touching c stays at zero for all time
    let edges = vec![(0usize, 1usize)];
    let mut hs = HighlightState::new(3);
    let (fi, fo) = fade_factors(DT);
    hs.set_hover(Some(0), &edges);
    let mut prev_edge = 0u64;
    for _ in 0..300 {
        hs.tick(DT, fi, fo);
        assert_eq!(hs.node_intensity(2), 0);
        assert_eq!(hs.edge_intensity(0, 2), 0);
        assert_eq!(hs.edge_intensity(1, 2), 0);
        let e = hs.edge_intensity(0, 1);
        assert!(e >= prev_edge, "edge glow never falls while hovered");
        prev_edge = e;
    }
    assert!(prev_edge >= 999_000, "edge rose to {} only", prev_edge);
}

#[test]
fn repeated_hover_value_changes_nothing() {
    let edges = vec![(0usize, 1usize)];
    let mut hs = HighlightState::new(2);
    let (fi, fo) = fade_factors(DT);
    hs.set_hover(Some(0), &edges);
    hs.tick(DT, fi, fo);
    let before = hs.node_intensity(0);
    hs.set_hover(Some(0), &edges);
    assert_eq!(hs.node_intensity(0), before);
    assert_eq!(hs.hovered_node, Some(0));
}

#[test]
fn ring_intensity_tracks_only_the_hovered_node() {
    let edges = vec![(0usize, 1usize)];
    let mut hs = HighlightState::new(2);
    let (fi, fo) = fade_factors(DT);
    hs.set_hover(Some(0), &edges);
    hs.tick(DT, fi, fo);
    assert!(hs.hover_ring_intensity(0) > 0);
    assert_eq!(hs.hover_ring_intensity(1), 0);
}

#[test]
fn pruning_keeps_the_boundary_value_and_drops_below_it() {
    // a decay factor of one leaves the value itself, so the tick shows
    // the pruning rule alone: exactly 0.005 stays tracked, below it the
    // slot is dropped to zero
    let mut hs = HighlightState::new(2);
    hs.node_intensity[0] = 5_000;
    hs.node_intensity[1] = 4_999;
    hs.tick(DT, 0, 1_000_000);
    assert_eq!(hs.node_intensity(0), 5_000);
    assert_eq!(hs.node_intensity(1), 0);
}
