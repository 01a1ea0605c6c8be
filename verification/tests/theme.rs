//! Color arithmetic, CSS rendering and the stock themes.

use imp_graph::theme::{Color, NodePalette, Theme};

#[test]
fn css_hex_rendering() {
    assert_eq!(Color::rgb(255, 0, 16).to_css_rgb(), "#ff0010");
    assert_eq!(Color::rgb(25, 118, 210).to_css_rgb(), "#1976d2");
    // an essentially opaque color renders as hex
    assert_eq!(Color::rgba(1, 2, 3, 999_500).to_css(), "#010203");
}

#[test]
fn css_rgba_rendering_trims_fraction_zeros() {
    assert_eq!(Color::rgba(1, 2, 3, 500_000).to_css(), "rgba(1, 2, 3, 0.5)");
    assert_eq!(Color::rgba(140, 160, 180, 250_000).to_css(), "rgba(140, 160, 180, 0.25)");
    assert_eq!(Color::rgba(0, 0, 0, 0).to_css(), "rgba(0, 0, 0, 0)");
    assert_eq!(Color::rgba(9, 99, 199, 120_300).to_css(), "rgba(9, 99, 199, 0.1203)");
}

#[test]
fn lighten_darken_and_blend() {
    let c = Color::rgb(100, 200, 50);
    let l = c.lighten(400_000);
    // each channel moves forty percent of the way to white
    assert_eq!((l.r, l.g, l.b, l.a), (162, 222, 132, 1_000_000));
    let d = c.darken(200_000);
    assert_eq!((d.r, d.g, d.b, d.a), (80, 160, 40, 1_000_000));
    let m = Color::rgb(0, 0, 0).lerp(Color::rgb(255, 255, 255), 500_000);
    assert_eq!((m.r, m.g, m.b), (127, 127, 127));
    // blend factors clamp into the unit range
    let beyond = Color::rgb(10, 10, 10).lighten(5_000_000);
    assert_eq!((beyond.r, beyond.g, beyond.b), (255, 255, 255));
}

#[test]
fn palettes_cycle_past_their_end() {
    let p = NodePalette::slate();
    assert_eq!(p.colors.len(), 8);
    assert_eq!(p.get(0), p.get(8));
    assert_eq!(p.get(3), p.get(11));
    assert_eq!(p.get(0), Color::rgb(94, 129, 172));
}

#[test]
fn stock_themes_carry_their_palettes() {
    assert_eq!(Theme::default_theme().name, "default");
    assert_eq!(Theme::midnight().name, "midnight");
    assert_eq!(Theme::ember().name, "ember");
    assert_eq!(Theme::deep_sea().name, "deep_sea");
    assert_eq!(Theme::minimal().name, "minimal");
    assert_eq!(Theme::default_theme().palette.get(0), NodePalette::slate().get(0));
    assert_eq!(Theme::ember().palette.get(0), NodePalette::earth().get(0));
    // the minimal theme draws flat: no gradients, no vignette
    let m = Theme::minimal();
    assert!(!m.background.use_gradient);
    assert!(!m.node.use_gradient);
    assert_eq!(m.background.vignette, 0);
    assert_eq!(Theme::default().name, "default");
}

#[test]
fn stock_themes_disable_particles() {
    for t in [
        Theme::default_theme(),
        Theme::midnight(),
        Theme::ember(),
        Theme::deep_sea(),
        Theme::minimal(),
    ] {
        assert!(!t.particles.enabled);
        assert_eq!(t.particles.count, 0);
    }
}
