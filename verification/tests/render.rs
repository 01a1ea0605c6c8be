//! The draw-list builder: color parsing, pass structure and z-order.

use imp_graph::render::{parse_color, render, DrawOp, Paint};
use imp_graph::scale::ScaleConfig;
use imp_graph::state::ForceGraphState;
use imp_graph::theme::{Color, Theme};
use imp_graph::types::{GraphData, GraphLink, GraphNode};

#[test]
fn parse_color_hex() {
    assert_eq!(parse_color("#1976d2"), Color::rgba(25, 118, 210, 1_000_000));
    assert_eq!(parse_color("#FF0000"), Color::rgba(255, 0, 0, 1_000_000));
    // a malformed digit falls back to the neutral 128 per channel
    assert_eq!(parse_color("#zz76d2"), Color::rgba(128, 118, 210, 1_000_000));
}

#[test]
fn parse_color_functional_forms() {
    assert_eq!(parse_color("rgb(255, 0, 0)"), Color::rgba(255, 0, 0, 1_000_000));
    assert_eq!(parse_color("rgba(10, 20, 30, 0.5)"), Color::rgba(10, 20, 30, 500_000));
    assert_eq!(parse_color("rgba(10,20,30,0.25)"), Color::rgba(10, 20, 30, 250_000));
    // out-of-range channels fall back, alphas clamp to one
    assert_eq!(parse_color("rgba(300, 20, 30, 2)"), Color::rgba(128, 20, 30, 1_000_000));
    // a missing alpha means opaque
    assert_eq!(parse_color("rgb(1,2,3)"), Color::rgba(1, 2, 3, 1_000_000));
}

#[test]
fn parse_color_falls_back_to_neutral_gray() {
    assert_eq!(parse_color("purple"), Color::rgba(128, 128, 128, 1_000_000));
    assert_eq!(parse_color(""), Color::rgba(128, 128, 128, 1_000_000));
    assert_eq!(parse_color("#ff00"), Color::rgba(128, 128, 128, 1_000_000));
}

fn sample_state() -> ForceGraphState {
    let data = GraphData {
        nodes: vec![
            GraphNode {
                id: "a".to_string(),
                label: Some("Node A".to_string()),
                color: Some("#ff0000".to_string()),
                group: None,
            },
            GraphNode { id: "b".to_string(), label: None, color: None, group: None },
        ],
        links: vec![GraphLink { source: "a".to_string(), target: "b".to_string() }],
    };
    ForceGraphState::new(&data, 800_000_000, 600_000_000, &Theme::default_theme())
}

#[test]
fn frame_passes_come_in_z_order() {
    let state = sample_state();
    let config = ScaleConfig::default();
    let theme = Theme::default_theme();
    let positions = vec![(0i64, 0i64), (100_000_000, 0)];
    let sins: Vec<i64> = Vec::new();
    let ops = render(&state, &positions, &config, &theme, None, &sins, 0);
    // background, world transform, one edge line with its arrowhead,
    // two node bodies with one label, inverse transform, vignette
    assert!(matches!(ops[0], DrawOp::FillRect { .. }));
    assert!(matches!(ops[1], DrawOp::PushTransform { .. }));
    assert!(matches!(ops[2], DrawOp::StrokeLine { .. }));
    assert!(matches!(ops[3], DrawOp::FillTriangle { .. }));
    assert!(matches!(ops[4], DrawOp::FillCircle { .. }));
    assert!(matches!(ops[5], DrawOp::Text { .. }));
    assert!(matches!(ops[6], DrawOp::FillCircle { .. }));
    assert!(matches!(ops[7], DrawOp::PopTransform));
    assert!(matches!(ops[8], DrawOp::FillRect { .. }));
    assert_eq!(ops.len(), 9);
}

#[test]
fn edge_line_keeps_clear_of_the_node_bodies() {
    let state = sample_state();
    let config = ScaleConfig::default();
    let theme = Theme::default_theme();
    let positions = vec![(0i64, 0i64), (100_000_000, 0)];
    let sins: Vec<i64> = Vec::new();
    let ops = render(&state, &positions, &config, &theme, None, &sins, 0);
    match &ops[2] {
        DrawOp::StrokeLine { x1, y1, x2, y2, .. } => {
            // pulled in by the node radius at the source and by radius
            // plus arrowhead at the target
            assert_eq!((*x1, *y1), (5_000_000, 0));
            assert_eq!((*x2, *y2), (90_000_000, 0));
        },
        other => panic!("expected the edge line, got {:?}", other),
    }
    match &ops[3] {
        DrawOp::FillTriangle { x1, y1, .. } => {
            // the arrow tip touches the target node's edge
            assert_eq!((*x1, *y1), (95_000_000, 0));
        },
        other => panic!("expected the arrowhead, got {:?}", other),
    }
}

#[test]
fn rendering_is_deterministic() {
    let state = sample_state();
    let config = ScaleConfig::default();
    let theme = Theme::midnight();
    let positions = vec![(0i64, 0i64), (100_000_000, 0)];
    let sins: Vec<i64> = Vec::new();
    let a = render(&state, &positions, &config, &theme, None, &sins, 250_000);
    let b = render(&state, &positions, &config, &theme, None, &sins, 250_000);
    assert_eq!(format!("{:?}", a), format!("{:?}", b));
}

#[test]
fn vanishing_edges_are_skipped_not_drawn() {
    let state = sample_state();
    let config = ScaleConfig::default();
    let theme = Theme::default_theme();
    // both endpoints within a thousandth of a pixel
    let positions = vec![(0i64, 0i64), (500, 0)];
    let sins: Vec<i64> = Vec::new();
    let ops = render(&state, &positions, &config, &theme, None, &sins, 0);
    assert!(!ops.iter().any(|op| matches!(op, DrawOp::StrokeLine { .. })));
    assert!(!ops.iter().any(|op| matches!(op, DrawOp::FillTriangle { .. })));
}

#[test]
fn flat_node_fill_hands_the_css_string_through() {
    let data = GraphData {
        nodes: vec![GraphNode {
            id: "a".to_string(),
            label: None,
            color: Some("#336699".to_string()),
            group: None,
        }],
        links: vec![],
    };
    let theme = Theme::minimal();
    let state = ForceGraphState::new(&data, 800_000_000, 600_000_000, &theme);
    let config = ScaleConfig::default();
    let positions = vec![(0i64, 0i64)];
    let sins: Vec<i64> = Vec::new();
    let ops = render(&state, &positions, &config, &theme, None, &sins, 0);
    let body = ops.iter().find_map(|op| match op {
        DrawOp::FillCircle { paint: Paint::Css(s), .. } => Some(s.clone()),
        _ => None,
    });
    assert_eq!(body.as_deref(), Some("#336699"));
}

#[test]
fn minimal_theme_draws_flat_without_vignette() {
    let data = GraphData {
        nodes: vec![GraphNode { id: "a".to_string(), label: None, color: None, group: None }],
        links: vec![],
    };
    let theme = Theme::minimal();
    let state = ForceGraphState::new(&data, 800_000_000, 600_000_000, &theme);
    let config = ScaleConfig::default();
    let positions = vec![(0i64, 0i64)];
    let sins: Vec<i64> = Vec::new();
    let ops = render(&state, &positions, &config, &theme, None, &sins, 0);
    assert!(matches!(ops[0], DrawOp::FillRect { paint: Paint::Flat(_), .. }));
    assert!(matches!(ops.last(), Some(DrawOp::PopTransform)));
}

#[test]
fn plain_nodes_dim_by_the_raw_maximum_intensity() {
    let mut state = sample_state();
    // something else is lit at a quarter: dimming follows the raw value
    state.highlight.cached_max = 250_000;
    let config = ScaleConfig::default();
    let theme = Theme::default_theme();
    let positions = vec![(0i64, 0i64), (100_000_000, 0)];
    let sins: Vec<i64> = Vec::new();
    let ops = render(&state, &positions, &config, &theme, None, &sins, 0);
    let body_alpha = ops.iter().find_map(|op| match op {
        DrawOp::FillCircle { alpha, .. } => Some(*alpha),
        _ => None,
    });
    // alpha = 1 - 0.7 * 0.25
    assert_eq!(body_alpha, Some(825_000));
}
