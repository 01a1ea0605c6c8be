//! Zoom-dependent scaling of graph visuals.
//!
//! Centralizes every zoom-dependent visual parameter. Values live in two
//! coordinate spaces: world-space values scale with the view transform,
//! screen-space values are raw pixels. Sizes and zoom factors are held in
//! micro-units ([`UNIT`] stands for 1.0, one micro-unit of size for one
//! millionth of a pixel); alphas are micro-unit fractions of one.

use vstd::prelude::*;

use crate::fixed::{mul_div, spec_clamp, UNIT};

verus! {

/// The largest base size a configuration may carry: one million pixels,
/// in micro-units. Keeps every scale computation inside `u64`.
pub const MAX_SIZE: u64 = 1_000_000_000_000;

/// How a visual size responds to the zoom factor `k`.
pub enum ScaleBehavior {
    /// Constant world-space size: appears larger when zoomed in.
    World,
    /// Constant screen-space size: divides by `k` to counter the view
    /// transform.
    Screen,
    /// World-space size clamped to a screen-size band. `None` for the
    /// upper bound leaves it open.
    Clamped { min_screen: u64, max_screen: Option<u64> },
}

impl ScaleBehavior {
    /// Bounds that keep the arithmetic of [`ScaleBehavior::apply`] exact.
    pub open spec fn wf(self) -> bool {
        match self {
            ScaleBehavior::World => true,
            ScaleBehavior::Screen => true,
            ScaleBehavior::Clamped { min_screen, max_screen } => min_screen <= MAX_SIZE
                && match max_screen {
                Option::Some(mx) => min_screen <= mx <= MAX_SIZE,
                Option::None => true,
            },
        }
    }
}

/// The world-space size that a behavior yields for a base size at zoom
/// `k` (all in micro-units).
pub open spec fn spec_scale(b: ScaleBehavior, base: int, k: int) -> int {
    match b {
        ScaleBehavior::World => base,
        ScaleBehavior::Screen => base * 1_000_000 / k,
        ScaleBehavior::Clamped { min_screen, max_screen } => {
            let lo = min_screen * 1_000_000 / k;
            match max_screen {
                Option::Some(mx) => spec_clamp(base, lo, mx * 1_000_000 / k),
                Option::None => if base < lo {
                    lo
                } else {
                    base
                },
            }
        },
    }
}

impl ScaleBehavior {
    /// The world-space value for a base size at zoom `k`, ready for
    /// drawing once the view transform is applied.
    pub fn apply(&self, base: u64, k: u64) -> (r: u64)
        requires
            self.wf(),
            base <= MAX_SIZE,
            1 <= k <= 10_000_000,
        ensures
            r == spec_scale(*self, base as int, k as int),
            r <= MAX_SIZE * 1_000_000,
    {
        match self {
            ScaleBehavior::World => base,
            ScaleBehavior::Screen => mul_div(base, UNIT, k),
            ScaleBehavior::Clamped { min_screen, max_screen } => {
                let lo = mul_div(*min_screen, UNIT, k);
                match max_screen {
                    Some(mx) => {
                        proof {
                            vstd::arithmetic::mul::lemma_mul_inequality(
                                *min_screen as int,
                                *mx as int,
                                1_000_000,
                            );
                            vstd::arithmetic::div_mod::lemma_div_is_ordered(
                                min_screen * 1_000_000,
                                mx * 1_000_000,
                                k as int,
                            );
                        }
                        let hi = mul_div(*mx, UNIT, k);
                        crate::fixed::clamp(base, lo, hi)
                    },
                    None => {
                        if base < lo {
                            lo
                        } else {
                            base
                        }
                    },
                }
            },
        }
    }
}

/// How an alpha responds to the zoom factor `k`.
pub enum AlphaBehavior {
    /// Constant alpha regardless of zoom.
    Constant,
    /// Alpha follows the zoom factor, clamped to `[0, 1]`.
    ScaleWithZoom,
    /// Alpha ramps between two zoom thresholds: zero at `zero_alpha_k`,
    /// full at `full_alpha_k` (either order), linear in between.
    Fade { zero_alpha_k: u64, full_alpha_k: u64 },
}

impl AlphaBehavior {
    /// Bounds that keep the ramp arithmetic exact.
    pub open spec fn wf(self) -> bool {
        match self {
            AlphaBehavior::Fade { zero_alpha_k, full_alpha_k } => zero_alpha_k <= 10_000_000
                && full_alpha_k <= 10_000_000,
            _ => true,
        }
    }
}

/// The alpha multiplier a behavior yields at zoom `k`, in micro-units,
/// always within `[0, 1]`.
pub open spec fn spec_alpha(b: AlphaBehavior, k: int) -> int {
    match b {
        AlphaBehavior::Constant => 1_000_000,
        AlphaBehavior::ScaleWithZoom => spec_clamp(k, 0, 1_000_000),
        AlphaBehavior::Fade { zero_alpha_k: z, full_alpha_k: fl } => {
            if z == fl {
                1_000_000
            } else if z < fl {
                spec_clamp((k - z) * 1_000_000 / (fl - z), 0, 1_000_000)
            } else {
                spec_clamp((z - k) * 1_000_000 / (z - fl), 0, 1_000_000)
            }
        },
    }
}

/// A quotient of a nonpositive value by a positive one is nonpositive.
proof fn lemma_div_nonpos(x: int, d: int)
    requires
        x <= 0,
        0 < d,
    ensures
        x / d <= 0,
{
    vstd::arithmetic::div_mod::lemma_fundamental_div_mod(x, d);
    let q = x / d;
    let r = x % d;
    vstd::arithmetic::div_mod::lemma_mod_bound(x, d);
    assert(q <= 0) by (nonlinear_arith)
        requires
            d * q + r == x,
            x <= 0,
            0 <= r < d,
    ;
}

/// The linear ramp from `z` to `fl > z`, scaled to micro-units and
/// clamped, computed without leaving `u64`.
fn ramp(k: u64, z: u64, fl: u64) -> (r: u64)
    requires
        z < fl <= 10_000_000,
        k <= 10_000_000,
    ensures
        r == spec_clamp((k - z) * 1_000_000 / (fl - z), 0, 1_000_000),
{
    if k <= z {
        proof {
            if k < z {
                vstd::arithmetic::mul::lemma_mul_inequality(k - z, 0, 1_000_000);
                lemma_div_nonpos((k - z) * 1_000_000, fl - z);
            } else {
                assert((k - z) * 1_000_000 == 0) by (nonlinear_arith)
                    requires
                        k == z,
                ;
                vstd::arithmetic::div_mod::lemma_div_of0(fl - z);
            }
        }
        0
    } else if k >= fl {
        proof {
            vstd::arithmetic::mul::lemma_mul_inequality(fl - z, k - z, 1_000_000);
            vstd::arithmetic::div_mod::lemma_div_is_ordered(
                (fl - z) * 1_000_000,
                (k - z) * 1_000_000,
                fl - z,
            );
            vstd::arithmetic::div_mod::lemma_div_multiples_vanish(1_000_000, fl - z);
            assert(((fl - z) as int) * 1_000_000 / ((fl - z) as int) == 1_000_000);
        }
        1_000_000
    } else {
        proof {
            vstd::arithmetic::mul::lemma_mul_strict_inequality(k - z, fl - z, 1_000_000);
            vstd::arithmetic::div_mod::lemma_multiply_divide_lt(
                (k - z) * 1_000_000,
                fl - z,
                1_000_000,
            );
            vstd::arithmetic::mul::lemma_mul_nonnegative(k - z, 1_000_000);
            vstd::arithmetic::div_mod::lemma_div_pos_is_pos((k - z) * 1_000_000, fl - z);
        }
        mul_div(k - z, UNIT, fl - z)
    }
}

impl AlphaBehavior {
    /// The alpha multiplier at zoom `k`, in micro-units.
    pub fn apply(&self, k: u64) -> (r: u64)
        requires
            self.wf(),
            1 <= k <= 10_000_000,
        ensures
            r == spec_alpha(*self, k as int),
            r <= UNIT,
    {
        match self {
            AlphaBehavior::Constant => UNIT,
            AlphaBehavior::ScaleWithZoom => if k > UNIT {
                UNIT
            } else {
                k
            },
            AlphaBehavior::Fade { zero_alpha_k, full_alpha_k } => {
                let z = *zero_alpha_k;
                let fl = *full_alpha_k;
                if z == fl {
                    UNIT
                } else if z < fl {
                    ramp(k, z, fl)
                } else {
                    // descending ramp: full below `fl`, zero above `z`
                    if k >= z {
                        proof {
                            if k > z {
                                vstd::arithmetic::mul::lemma_mul_inequality(z - k, 0, 1_000_000);
                                lemma_div_nonpos((z - k) * 1_000_000, z - fl);
                            } else {
                                assert((z - k) * 1_000_000 == 0) by (nonlinear_arith)
                                    requires
                                        k == z,
                                ;
                                vstd::arithmetic::div_mod::lemma_div_of0(z - fl);
                            }
                        }
                        0
                    } else {
                        ramp_down_tail(k, z, fl)
                    }
                }
            },
        }
    }
}

/// The descending ramp below its zero threshold.
fn ramp_down_tail(k: u64, z: u64, fl: u64) -> (r: u64)
    requires
        fl < z <= 10_000_000,
        k < z,
    ensures
        r == spec_clamp((z - k) * 1_000_000 / (z - fl), 0, 1_000_000),
{
    if k <= fl {
        proof {
            vstd::arithmetic::mul::lemma_mul_inequality(z - fl, z - k, 1_000_000);
            vstd::arithmetic::div_mod::lemma_div_is_ordered(
                (z - fl) * 1_000_000,
                (z - k) * 1_000_000,
                z - fl,
            );
            vstd::arithmetic::div_mod::lemma_div_multiples_vanish(1_000_000, z - fl);
            assert(((z - fl) as int) * 1_000_000 / ((z - fl) as int) == 1_000_000);
        }
        1_000_000
    } else {
        proof {
            vstd::arithmetic::mul::lemma_mul_strict_inequality(z - k, z - fl, 1_000_000);
            vstd::arithmetic::div_mod::lemma_multiply_divide_lt(
                (z - k) * 1_000_000,
                z - fl,
                1_000_000,
            );
            vstd::arithmetic::mul::lemma_mul_nonnegative(z - k, 1_000_000);
            vstd::arithmetic::div_mod::lemma_div_pos_is_pos((z - k) * 1_000_000, z - fl);
        }
        mul_div(z - k, UNIT, z - fl)
    }
}

/// Node visual scaling: radius, hit radius and label sizing.
pub struct NodeScaleConfig {
    /// Base node radius in world units.
    pub radius: u64,
    /// How the node radius scales with zoom.
    pub radius_behavior: ScaleBehavior,
    /// Hit detection radius in world units.
    pub hit_radius: u64,
    /// How the hit radius scales with zoom.
    pub hit_behavior: ScaleBehavior,
    /// Label font size in screen pixels.
    pub label_size: u64,
    /// Floor for the zoom factor in label font scaling.
    pub label_min_k: u64,
}

/// Edge visual scaling: line width, dash pattern and flow animation.
pub struct EdgeScaleConfig {
    /// Base line width in screen pixels.
    pub line_width: u64,
    /// Dash pattern (dash, gap) in world units.
    pub dash_pattern: (u64, u64),
    /// Flow animation speed, world units per second.
    pub flow_speed: u64,
    /// How dash visibility scales with zoom; faded out, edges go solid.
    pub dash_alpha_behavior: AlphaBehavior,
}

/// Arrowhead scaling and culling.
pub struct ArrowScaleConfig {
    /// Base arrow size in world units.
    pub size: u64,
    /// How the arrow size scales with zoom.
    pub size_behavior: ScaleBehavior,
    /// How the arrow alpha scales with zoom.
    pub alpha_behavior: AlphaBehavior,
    /// Alpha below which arrows are not drawn at all.
    pub cull_alpha: u64,
}

/// Hover glow sizing.
pub struct GlowScaleConfig {
    /// Glow radius multiplier for the hovered node.
    pub hovered_radius: u64,
    /// Glow radius multiplier for neighbour nodes.
    pub neighbor_radius: u64,
    /// Hover ring stroke width in screen pixels.
    pub ring_width: u64,
    /// Ring offset from the node edge in screen pixels.
    pub ring_offset: u64,
}

/// Complete scale configuration for all graph elements.
pub struct ScaleConfig {
    pub node: NodeScaleConfig,
    pub edge: EdgeScaleConfig,
    pub arrow: ArrowScaleConfig,
    pub glow: GlowScaleConfig,
}

impl ScaleConfig {
    /// Every size within [`MAX_SIZE`], behaviors well-formed, and the
    /// label zoom floor positive.
    pub open spec fn wf(self) -> bool {
        &&& self.node.radius <= MAX_SIZE
        &&& self.node.radius_behavior.wf()
        &&& self.node.hit_radius <= MAX_SIZE
        &&& self.node.hit_behavior.wf()
        &&& self.node.label_size <= MAX_SIZE
        &&& 1 <= self.node.label_min_k <= 10_000_000
        &&& self.edge.line_width <= MAX_SIZE
        &&& self.edge.dash_pattern.0 <= MAX_SIZE
        &&& self.edge.dash_pattern.1 <= MAX_SIZE
        &&& self.edge.flow_speed <= MAX_SIZE
        &&& self.edge.dash_alpha_behavior.wf()
        &&& self.arrow.size <= MAX_SIZE
        &&& self.arrow.size_behavior.wf()
        &&& self.arrow.alpha_behavior.wf()
        &&& self.arrow.cull_alpha <= UNIT
        &&& self.glow.hovered_radius <= MAX_SIZE
        &&& self.glow.neighbor_radius <= MAX_SIZE
        &&& self.glow.ring_width <= MAX_SIZE
        &&& self.glow.ring_offset <= MAX_SIZE
    }
}

/// The stock configuration: clamped node radii that never shrink below
/// five screen pixels, dashes that solidify when zoomed out, arrows that
/// fade and cull with zoom.
pub open spec fn spec_default_scale_config() -> ScaleConfig {
    ScaleConfig {
        node: NodeScaleConfig {
            radius: 5_000_000,
            radius_behavior: ScaleBehavior::Clamped {
                min_screen: 5_000_000,
                max_screen: Option::None,
            },
            hit_radius: 12_000_000,
            hit_behavior: ScaleBehavior::Clamped {
                min_screen: 5_000_000,
                max_screen: Option::None,
            },
            label_size: 10_000_000,
            label_min_k: 500_000,
        },
        edge: EdgeScaleConfig {
            line_width: 1_500_000,
            dash_pattern: (8_000_000, 4_000_000),
            flow_speed: 12_000_000,
            dash_alpha_behavior: AlphaBehavior::Fade {
                zero_alpha_k: 400_000,
                full_alpha_k: 900_000,
            },
        },
        arrow: ArrowScaleConfig {
            size: 5_000_000,
            size_behavior: ScaleBehavior::Clamped {
                min_screen: 0,
                max_screen: Option::Some(18_000_000),
            },
            alpha_behavior: AlphaBehavior::ScaleWithZoom,
            cull_alpha: 50_000,
        },
        glow: GlowScaleConfig {
            hovered_radius: 3_000_000,
            neighbor_radius: 2_000_000,
            ring_width: 1_500_000,
            ring_offset: 2_000_000,
        },
    }
}

impl Default for ScaleConfig {
    /// The stock configuration, well-formed.
    fn default() -> (r: ScaleConfig)
        ensures
            r == spec_default_scale_config(),
            r.wf(),
    {
        ScaleConfig {
            node: NodeScaleConfig {
                radius: 5_000_000,
                radius_behavior: ScaleBehavior::Clamped {
                    min_screen: 5_000_000,
                    max_screen: None,
                },
                hit_radius: 12_000_000,
                hit_behavior: ScaleBehavior::Clamped {
                    min_screen: 5_000_000,
                    max_screen: None,
                },
                label_size: 10_000_000,
                label_min_k: 500_000,
            },
            edge: EdgeScaleConfig {
                line_width: 1_500_000,
                dash_pattern: (8_000_000, 4_000_000),
                flow_speed: 12_000_000,
                dash_alpha_behavior: AlphaBehavior::Fade {
                    zero_alpha_k: 400_000,
                    full_alpha_k: 900_000,
                },
            },
            arrow: ArrowScaleConfig {
                size: 5_000_000,
                size_behavior: ScaleBehavior::Clamped {
                    min_screen: 0,
                    max_screen: Some(18_000_000),
                },
                alpha_behavior: AlphaBehavior::ScaleWithZoom,
                cull_alpha: 50_000,
            },
            glow: GlowScaleConfig {
                hovered_radius: 3_000_000,
                neighbor_radius: 2_000_000,
                ring_width: 1_500_000,
                ring_offset: 2_000_000,
            },
        }
    }
}

/// Scale values resolved for one zoom level, computed once per frame.
/// All sizes are world-space micro-units, ready for drawing after the
/// view transform; alphas are micro-unit fractions of one.
pub struct ScaledValues {
    /// The zoom level the values were resolved for.
    pub k: u64,
    /// Node radius in world space.
    pub node_radius: u64,
    /// Hit detection radius in world space.
    pub hit_radius: u64,
    /// Label font size in screen pixels.
    pub label_font_size: u64,
    /// Edge line width in world space.
    pub edge_line_width: u64,
    /// Dash pattern in world space.
    pub dash_pattern: (u64, u64),
    /// Dash visibility in `[0, 1]`; at zero, edges are solid lines.
    pub dash_alpha: u64,
    /// Arrow size in world space.
    pub arrow_size: u64,
    /// Arrow alpha multiplier in `[0, 1]`.
    pub arrow_alpha: u64,
    /// Whether arrows are skipped outright (alpha under the threshold).
    pub cull_arrows: bool,
    /// Hover ring width in world space.
    pub ring_width: u64,
    /// Hover ring offset in world space.
    pub ring_offset: u64,
}

/// The zoom floor applied to label font scaling.
pub open spec fn spec_label_k(config: ScaleConfig, k: int) -> int {
    if k > config.node.label_min_k {
        k
    } else {
        config.node.label_min_k as int
    }
}

/// The values that resolving a configuration at zoom `k` yields: a pure
/// function of its two arguments.
pub open spec fn spec_scaled_values(config: ScaleConfig, k: int) -> ScaledValues {
    ScaledValues {
        k: k as u64,
        node_radius: spec_scale(config.node.radius_behavior, config.node.radius as int, k) as u64,
        hit_radius: spec_scale(config.node.hit_behavior, config.node.hit_radius as int, k) as u64,
        label_font_size: (config.node.label_size * 1_000_000 / spec_label_k(config, k)) as u64,
        edge_line_width: (config.edge.line_width * 1_000_000 / k) as u64,
        dash_pattern: config.edge.dash_pattern,
        dash_alpha: spec_alpha(config.edge.dash_alpha_behavior, k) as u64,
        arrow_size: spec_scale(config.arrow.size_behavior, config.arrow.size as int, k) as u64,
        arrow_alpha: spec_alpha(config.arrow.alpha_behavior, k) as u64,
        cull_arrows: spec_alpha(config.arrow.alpha_behavior, k) < config.arrow.cull_alpha,
        ring_width: (config.glow.ring_width * 1_000_000 / k) as u64,
        ring_offset: (config.glow.ring_offset * 1_000_000 / k) as u64,
    }
}

impl ScaledValues {
    /// Resolve a configuration at zoom `k`.
    pub fn new(config: &ScaleConfig, k: u64) -> (r: ScaledValues)
        requires
            config.wf(),
            1 <= k <= 10_000_000,
        ensures
            r == spec_scaled_values(*config, k as int),
    {
        let node_radius = config.node.radius_behavior.apply(config.node.radius, k);
        let hit_radius = config.node.hit_behavior.apply(config.node.hit_radius, k);
        let label_k = if k > config.node.label_min_k {
            k
        } else {
            config.node.label_min_k
        };
        let label_font_size = mul_div(config.node.label_size, UNIT, label_k);
        let arrow_alpha = config.arrow.alpha_behavior.apply(k);
        let dash_alpha = config.edge.dash_alpha_behavior.apply(k);
        ScaledValues {
            k,
            node_radius,
            hit_radius,
            label_font_size,
            edge_line_width: mul_div(config.edge.line_width, UNIT, k),
            dash_pattern: config.edge.dash_pattern,
            dash_alpha,
            arrow_size: config.arrow.size_behavior.apply(config.arrow.size, k),
            arrow_alpha,
            cull_arrows: arrow_alpha < config.arrow.cull_alpha,
            ring_width: mul_div(config.glow.ring_width, UNIT, k),
            ring_offset: mul_div(config.glow.ring_offset, UNIT, k),
        }
    }

    /// The dash offset of the flow animation after `flow_time`
    /// micro-seconds at `flow_speed` world units per second: the dashes
    /// march backward along the edge direction.
    pub fn dash_offset(&self, flow_time: u64, flow_speed: u64) -> (r: i64)
        requires
            flow_time * flow_speed / 1_000_000 <= 0x7fff_ffff_ffff_ffff,
        ensures
            r == -(flow_time * flow_speed / 1_000_000),
    {
        proof {
            vstd::arithmetic::div_mod::lemma_div_nonincreasing(
                flow_time * flow_speed,
                1_000_000,
            );
            vstd::arithmetic::mul::lemma_mul_nonnegative(flow_time as int, flow_speed as int);
            vstd::arithmetic::div_mod::lemma_div_pos_is_pos(flow_time * flow_speed, 1_000_000);
        }
        let p = mul_div(flow_time, flow_speed, UNIT);
        -(p as i64)
    }
}

/// Law: resolving is pure — one (configuration, zoom) pair yields one
/// output, however often it is evaluated.
pub proof fn lemma_resolve_pure(c1: ScaleConfig, k1: int, c2: ScaleConfig, k2: int)
    requires
        c1 == c2,
        k1 == k2,
    ensures
        spec_scaled_values(c1, k1) == spec_scaled_values(c2, k2),
{
}

/// Law: a clamped size keeps its drawn screen size `r * k` inside the
/// configured band, up to the fixed-point grain of one division: it
/// stays above `min_screen - k` micro-units (under a hundredth of a
/// pixel at full zoom) and, when a finite upper bound is set and the
/// base does not sit below the lower bound, at or below `max_screen`.
pub proof fn lemma_clamped_screen_bounds(
    min_screen: u64,
    max_screen: Option<u64>,
    base: int,
    k: int,
)
    requires
        (ScaleBehavior::Clamped { min_screen, max_screen }).wf(),
        0 <= base,
        1 <= k <= 10_000_000,
    ensures
        spec_scale(ScaleBehavior::Clamped { min_screen, max_screen }, base, k) * k
            > min_screen * 1_000_000 - k,
        match max_screen {
            Option::Some(mx) => spec_scale(ScaleBehavior::Clamped { min_screen, max_screen }, base, k)
                * k <= mx * 1_000_000 + k,
            Option::None => true,
        },
{
    let lo = min_screen * 1_000_000 / k;
    let r = spec_scale(ScaleBehavior::Clamped { min_screen, max_screen }, base, k);
    vstd::arithmetic::div_mod::lemma_fundamental_div_mod(min_screen * 1_000_000, k);
    vstd::arithmetic::div_mod::lemma_mod_bound(min_screen * 1_000_000, k);
    vstd::arithmetic::mul::lemma_mul_nonnegative(min_screen as int, 1_000_000);
    vstd::arithmetic::div_mod::lemma_div_pos_is_pos(min_screen * 1_000_000, k);
    assert(k * lo > min_screen * 1_000_000 - k);
    match max_screen {
        Option::Some(mx) => {
            let hi = mx * 1_000_000 / k;
            vstd::arithmetic::mul::lemma_mul_inequality(min_screen as int, mx as int, 1_000_000);
            vstd::arithmetic::div_mod::lemma_div_is_ordered(
                min_screen * 1_000_000,
                mx * 1_000_000,
                k,
            );
            assert(lo <= hi);
            assert(r >= lo);
            vstd::arithmetic::mul::lemma_mul_inequality(lo, r, k);
            assert(lo * k == k * lo) by (nonlinear_arith);
            assert(r <= hi);
            vstd::arithmetic::div_mod::lemma_fundamental_div_mod(mx * 1_000_000, k);
            vstd::arithmetic::div_mod::lemma_mod_bound(mx * 1_000_000, k);
            assert(k * hi <= mx * 1_000_000);
            vstd::arithmetic::mul::lemma_mul_inequality(r, hi, k);
            assert(hi * k == k * hi) by (nonlinear_arith);
        },
        Option::None => {
            assert(r >= lo);
            vstd::arithmetic::mul::lemma_mul_inequality(lo, r, k);
            assert(lo * k == k * lo) by (nonlinear_arith);
        },
    }
}

} // verus!
