//! Graph construction and the interaction layer: link resolution, color
//! and size assignment, hit testing, panning, dragging and zooming.

use imp_graph::scale::ScaleConfig;
use imp_graph::state::{default_cluster_colors, ForceGraphState};
use imp_graph::theme::Theme;
use imp_graph::types::{GraphData, GraphLink, GraphNode};

fn node(id: &str, label: Option<&str>, color: Option<&str>, group: Option<&str>) -> GraphNode {
    GraphNode {
        id: id.to_string(),
        label: label.map(|s| s.to_string()),
        color: color.map(|s| s.to_string()),
        group: group.map(|s| s.to_string()),
    }
}

fn link(source: &str, target: &str) -> GraphLink {
    GraphLink { source: source.to_string(), target: target.to_string() }
}

const W: u64 = 800_000_000;
const H: u64 = 600_000_000;

fn sample() -> GraphData {
    GraphData {
        nodes: vec![
            node("a", Some("Node A"), Some("#ff0000"), None),
            node("b", None, None, Some("modules.home")),
            node("c", None, None, None),
        ],
        links: vec![link("a", "b"), link("b", "zz")],
    }
}

#[test]
fn cluster_color_table_holds_its_pairs() {
    let cc = default_cluster_colors();
    assert_eq!(cc.len(), 11);
    assert_eq!(cc[0], ("modules.home".to_string(), "#1976d2".to_string()));
    assert_eq!(cc[9], ("flake".to_string(), "#455a64".to_string()));
}

#[test]
fn dangling_links_are_dropped_silently() {
    let state = ForceGraphState::new(&sample(), W, H, &Theme::default_theme());
    assert_eq!(state.nodes.len(), 3);
    assert_eq!(state.edges, vec![(0usize, 1usize)]);
}

#[test]
fn node_colors_follow_override_cluster_then_palette() {
    let state = ForceGraphState::new(&sample(), W, H, &Theme::default_theme());
    assert_eq!(state.nodes[0].color, "#ff0000");
    assert_eq!(state.nodes[1].color, "#1976d2");
    // the third slate palette color
    assert_eq!(state.nodes[2].color, "#6494a0");
}

#[test]
fn node_sizes_scale_with_connectivity() {
    let state = ForceGraphState::new(&sample(), W, H, &Theme::default_theme());
    // the dangling link still counts toward connectivity, so the
    // densest endpoint carries two ends and a carries one
    assert_eq!(state.nodes[0].size, 1_824_263);
    assert_eq!(state.nodes[1].size, 1_200_000);
    assert_eq!(state.nodes[2].size, 700_000);
}

#[test]
fn fresh_state_is_centered_and_unzoomed() {
    let state = ForceGraphState::new(&sample(), W, H, &Theme::default_theme());
    assert_eq!(state.transform.x, (W / 2) as i64);
    assert_eq!(state.transform.y, (H / 2) as i64);
    assert_eq!(state.transform.k, 1_000_000);
    assert!(state.animation_running);
    assert_eq!(state.flow_time, 0);
    assert!(!state.drag.active);
    assert!(!state.pan.active);
}

#[test]
fn hit_testing_maps_screen_points_to_nodes() {
    let state = ForceGraphState::new(&sample(), W, H, &Theme::default_theme());
    let config = ScaleConfig::default();
    let positions = vec![(0i64, 0i64), (50_000_000, 0), (0, 50_000_000)];
    let cx = (W / 2) as i64;
    let cy = (H / 2) as i64;
    // the view is centered, so the canvas center is graph (0, 0)
    assert_eq!(state.screen_to_graph(cx, cy), (0, 0));
    assert_eq!(state.node_at_position(cx, cy, &config, &positions), Some(0));
    assert_eq!(state.node_at_position(cx + 50_000_000, cy, &config, &positions), Some(1));
    assert_eq!(state.node_at_position(cx + 200_000_000, cy, &config, &positions), None);
}

#[test]
fn panning_moves_the_view_by_the_pointer_delta() {
    let mut state = ForceGraphState::new(&sample(), W, H, &Theme::default_theme());
    let config = ScaleConfig::default();
    let positions = vec![(0i64, 0i64), (50_000_000, 0), (0, 50_000_000)];
    let (x0, y0) = (state.transform.x, state.transform.y);
    state.on_pointer_down(10_000_000, 10_000_000, &config, &positions);
    assert!(state.pan.active);
    assert!(!state.drag.active);
    let r = state.on_pointer_move(25_000_000, 4_000_000, &config, &positions);
    assert_eq!(r, None);
    assert_eq!(state.transform.x, x0 + 15_000_000);
    assert_eq!(state.transform.y, y0 - 6_000_000);
    assert_eq!(state.on_pointer_up(), None);
    assert!(!state.pan.active);
}

#[test]
fn dragging_pins_the_node_under_the_pointer() {
    let mut state = ForceGraphState::new(&sample(), W, H, &Theme::default_theme());
    let config = ScaleConfig::default();
    let positions = vec![(0i64, 0i64), (50_000_000, 0), (0, 50_000_000)];
    let cx = (W / 2) as i64;
    let cy = (H / 2) as i64;
    state.on_pointer_down(cx, cy, &config, &positions);
    assert!(state.drag.active);
    assert_eq!(state.drag.node_idx, Some(0));
    // a ten-pixel move at zoom one asks the engine to pin the node ten
    // pixels away in graph space
    let r = state.on_pointer_move(cx + 10_000_000, cy, &config, &positions);
    assert_eq!(r, Some((0, 10_000_000, 0)));
    // releasing tells the caller which node to leave anchored
    assert_eq!(state.on_pointer_up(), Some(0));
    assert!(!state.drag.active);
    assert_eq!(state.drag.node_idx, None);
}

#[test]
fn wheel_zoom_clamps_and_keeps_the_cursor_point() {
    let mut state = ForceGraphState::new(&sample(), W, H, &Theme::default_theme());
    let (x0, y0) = (state.transform.x, state.transform.y);
    // zooming about the translation point leaves it fixed
    state.on_wheel(x0, y0, true);
    assert_eq!(state.transform.k, 1_100_000);
    assert_eq!(state.transform.x, x0);
    assert_eq!(state.transform.y, y0);
    // the zoom factor never leaves [0.1, 10]
    for _ in 0..60 {
        state.on_wheel(x0, y0, true);
    }
    assert_eq!(state.transform.k, 10_000_000);
    for _ in 0..100 {
        state.on_wheel(x0, y0, false);
    }
    assert_eq!(state.transform.k, 100_000);
}

#[test]
fn pointer_leave_clears_gestures_and_hover() {
    let mut state = ForceGraphState::new(&sample(), W, H, &Theme::default_theme());
    let config = ScaleConfig::default();
    let positions = vec![(0i64, 0i64), (50_000_000, 0), (0, 50_000_000)];
    let cx = (W / 2) as i64;
    let cy = (H / 2) as i64;
    // hovering a node via a plain move lights it up
    state.on_pointer_move(cx, cy, &config, &positions);
    assert_eq!(state.highlight.hovered_node, Some(0));
    state.on_pointer_leave();
    assert_eq!(state.highlight.hovered_node, None);
    assert!(!state.drag.active);
    assert!(!state.pan.active);
}

#[test]
fn tick_advances_the_clock_and_the_highlights() {
    let mut state = ForceGraphState::new(&sample(), W, H, &Theme::default_theme());
    state.set_hover(Some(0));
    let dt = 16_667u64;
    let dts = dt as f64 / 1_000_000.0;
    let fi = ((1.0 - (-6.0 * dts).exp()) * 1_000_000.0) as u64;
    let fo = ((-4.0 * dts).exp() * 1_000_000.0) as u64;
    state.tick(dt, fi, fo);
    assert_eq!(state.flow_time, dt);
    assert!(state.highlight.node_intensity(0) > 0);
    // the neighbour along the resolved edge lights too, the stranger not
    assert!(state.highlight.node_intensity(1) > 0);
    assert_eq!(state.highlight.node_intensity(2), 0);
}

#[test]
fn resize_adopts_the_new_canvas_size() {
    let mut state = ForceGraphState::new(&sample(), W, H, &Theme::default_theme());
    state.resize(1_024_000_000, 768_000_000);
    assert_eq!(state.width, 1_024_000_000);
    assert_eq!(state.height, 768_000_000);
}

#[test]
fn animation_clock_saturates_at_its_ceiling() {
    let mut state = ForceGraphState::new(&sample(), W, H, &Theme::default_theme());
    state.tick(u64::MAX, 0, 1_000_000);
    assert_eq!(state.flow_time, 1_000_000_000_000);
    state.tick(1, 0, 1_000_000);
    assert_eq!(state.flow_time, 1_000_000_000_000);
}
