//! The multi-pass draw-list builder.
//!
//! Rendering a frame produces an ordered sequence of drawing operations
//! for a stateless drawing surface; the order of the sequence is the only
//! source of occlusion correctness. The passes run back to front:
//! background, ambient particles (screen space), the world transform,
//! edge glows, edge lines with arrowheads, node glows, plain nodes,
//! highlighted nodes with rings and labels, the inverse transform, and a
//! vignette. Coordinates are micro-pixels, alphas micro-unit fractions.

use vstd::prelude::*;

use crate::fixed::{
    mul_div, mul_div_signed, spec_isqrt, spec_smooth_step, smooth_step, tdiv, UNIT,
};
use crate::particles::ParticleSystem;
use crate::scale::{ScaleConfig, ScaledValues};
use crate::state::ForceGraphState;
use crate::theme::{spec_darken, spec_lerp, spec_lighten, Color, Theme};
use vstd::string::StringSliceAdditionalSpecFns;

verus! {

/// What a shape is filled or stroked with.
#[derive(Debug)]
pub enum Paint {
    /// A single color.
    Flat(Color),
    /// A CSS color string handed through as the surface understands it.
    Css(String),
    /// A radial gradient between two circles, with ordered color stops
    /// at micro-unit offsets.
    Radial { x0: i64, y0: i64, r0: u64, x1: i64, y1: i64, r1: u64, stops: GradientStops },
}

/// The ordered color stops of a gradient, at micro-unit offsets.
#[derive(Debug)]
pub enum GradientStops {
    Two((u64, Color), (u64, Color)),
    Three((u64, Color), (u64, Color), (u64, Color)),
}

/// One drawing operation. Stroke dashes are (dash, gap, offset).
#[derive(Debug)]
pub enum DrawOp {
    FillRect { x: i64, y: i64, w: u64, h: u64, paint: Paint },
    FillCircle { cx: i64, cy: i64, r: u64, paint: Paint, alpha: u64 },
    StrokeCircle { cx: i64, cy: i64, r: u64, width: u64, color: Color, alpha: u64 },
    StrokeLine {
        x1: i64,
        y1: i64,
        x2: i64,
        y2: i64,
        width: u64,
        color: Color,
        dash: Option<(u64, u64, i64)>,
    },
    StrokeQuad {
        x1: i64,
        y1: i64,
        cx: i64,
        cy: i64,
        x2: i64,
        y2: i64,
        width: u64,
        color: Color,
        dash: Option<(u64, u64, i64)>,
    },
    FillTriangle { x1: i64, y1: i64, x2: i64, y2: i64, x3: i64, y3: i64, color: Color },
    /// Enter world space: translate, then scale by the zoom factor.
    PushTransform { x: i64, y: i64, k: u64 },
    /// Leave world space again.
    PopTransform,
    Text { text: String, x: i64, y: i64, size: u64, color: Color, alpha: u64 },
}

/// The background fill: a flat color, or a radial gradient centered on
/// the canvas with radius eight tenths of its larger side.
pub open spec fn spec_background_op(w: int, h: int, theme: Theme) -> DrawOp {
    let m = if w > h {
        w
    } else {
        h
    };
    DrawOp::FillRect {
        x: 0,
        y: 0,
        w: w as u64,
        h: h as u64,
        paint: if theme.background.use_gradient {
            Paint::Radial {
                x0: (w / 2) as i64,
                y0: (h / 2) as i64,
                r0: 0,
                x1: (w / 2) as i64,
                y1: (h / 2) as i64,
                r1: (m * 8 / 10) as u64,
                stops: GradientStops::Two(
                    (0u64, theme.background.color_secondary),
                    (1_000_000u64, theme.background.color),
                ),
            }
        } else {
            Paint::Flat(theme.background.color)
        },
    }
}

/// The vignette overlay: transparent at three tenths of the smaller
/// side, the configured darkness at seven tenths of the larger.
pub open spec fn spec_vignette_ops(w: int, h: int, theme: Theme) -> Seq<DrawOp> {
    if theme.background.vignette > 0 {
        let lo = if w < h {
            w
        } else {
            h
        };
        let hi = if w > h {
            w
        } else {
            h
        };
        seq![
            DrawOp::FillRect {
                x: 0,
                y: 0,
                w: w as u64,
                h: h as u64,
                paint: Paint::Radial {
                    x0: (w / 2) as i64,
                    y0: (h / 2) as i64,
                    r0: (lo * 3 / 10) as u64,
                    x1: (w / 2) as i64,
                    y1: (h / 2) as i64,
                    r1: (hi * 7 / 10) as u64,
                    stops: GradientStops::Two(
                        (0u64, Color { r: 0, g: 0, b: 0, a: 0 }),
                        (1_000_000u64, Color { r: 0, g: 0, b: 0, a: theme.background.vignette }),
                    ),
                },
            },
        ]
    } else {
        Seq::empty()
    }
}

/// One ambient particle: a filled circle at its position, its alpha
/// twinkled by the sine of its phase argument.
pub open spec fn spec_particle_op(theme: Theme, p: crate::particles::Particle, s: int) -> DrawOp {
    DrawOp::FillCircle {
        cx: p.x,
        cy: p.y,
        r: p.size,
        paint: Paint::Flat(
            Color {
                r: theme.particles.color.r,
                g: theme.particles.color.g,
                b: theme.particles.color.b,
                a: crate::particles::spec_twinkle(p.alpha as int, s) as u64,
            },
        ),
        alpha: 1_000_000,
    }
}

/// The particle pass over the first `m` particles.
pub open spec fn spec_particle_ops(
    theme: Theme,
    ps: Seq<crate::particles::Particle>,
    sins: Seq<i64>,
    m: int,
) -> Seq<DrawOp>
    decreases m,
{
    if m <= 0 {
        Seq::empty()
    } else {
        spec_particle_ops(theme, ps, sins, m - 1).push(
            spec_particle_op(theme, ps[m - 1], sins[m - 1] as int),
        )
    }
}

/// Fill the background.
fn draw_background(ops: &mut Vec<DrawOp>, width: u64, height: u64, theme: &Theme)
    requires
        width <= crate::scale::MAX_SIZE,
        height <= crate::scale::MAX_SIZE,
    ensures
        final(ops)@ == old(ops)@.push(spec_background_op(width as int, height as int, *theme)),
{
    let m = if width > height {
        width
    } else {
        height
    };
    let paint = if theme.background.use_gradient {
        let stops = GradientStops::Two(
            (0, theme.background.color_secondary),
            (1_000_000, theme.background.color),
        );
        Paint::Radial {
            x0: (width / 2) as i64,
            y0: (height / 2) as i64,
            r0: 0,
            x1: (width / 2) as i64,
            y1: (height / 2) as i64,
            r1: m * 8 / 10,
            stops,
        }
    } else {
        Paint::Flat(theme.background.color)
    };
    ops.push(DrawOp::FillRect { x: 0, y: 0, w: width, h: height, paint });
}

/// Overlay the vignette, when the theme carries one.
fn draw_vignette(ops: &mut Vec<DrawOp>, width: u64, height: u64, theme: &Theme)
    requires
        width <= crate::scale::MAX_SIZE,
        height <= crate::scale::MAX_SIZE,
        theme.wf(),
    ensures
        final(ops)@ == old(ops)@ + spec_vignette_ops(width as int, height as int, *theme),
{
    if theme.background.vignette > 0 {
        let lo = if width < height {
            width
        } else {
            height
        };
        let hi = if width > height {
            width
        } else {
            height
        };
        let stops = GradientStops::Two(
            (0, Color { r: 0, g: 0, b: 0, a: 0 }),
            (1_000_000, Color { r: 0, g: 0, b: 0, a: theme.background.vignette }),
        );
        ops.push(
            DrawOp::FillRect {
                x: 0,
                y: 0,
                w: width,
                h: height,
                paint: Paint::Radial {
                    x0: (width / 2) as i64,
                    y0: (height / 2) as i64,
                    r0: lo * 3 / 10,
                    x1: (width / 2) as i64,
                    y1: (height / 2) as i64,
                    r1: hi * 7 / 10,
                    stops,
                },
            },
        );
        proof {
            assert(final(ops)@ =~= old(ops)@ + spec_vignette_ops(
                width as int,
                height as int,
                *theme,
            ));
        }
    } else {
        proof {
            assert(final(ops)@ =~= old(ops)@ + spec_vignette_ops(
                width as int,
                height as int,
                *theme,
            ));
        }
    }
}

/// Draw the ambient particles in screen space; `sins` carries the sine
/// of each particle's twinkle argument, in micro-units.
fn draw_particles(ops: &mut Vec<DrawOp>, theme: &Theme, particles: &ParticleSystem, sins: &Vec<i64>)
    requires
        particles.wf(),
        sins.len() == particles.particles.len(),
        forall|i: int| 0 <= i < sins.len() ==> -1_000_000 <= #[trigger] sins[i] <= 1_000_000,
    ensures
        final(ops)@ == old(ops)@ + spec_particle_ops(
            *theme,
            particles.particles@,
            sins@,
            particles.particles.len() as int,
        ),
{
    let n = particles.particles.len();
    let mut i: usize = 0;
    while i < n
        invariant
            i <= n,
            n == particles.particles.len(),
            particles.wf(),
            sins.len() == n,
            forall|j: int| 0 <= j < n ==> -1_000_000 <= #[trigger] sins[j] <= 1_000_000,
            ops@ == old(ops)@ + spec_particle_ops(*theme, particles.particles@, sins@, i as int),
        decreases n - i,
    {
        let p = &particles.particles[i];
        let a = particles.twinkle_alpha(p, sins[i]);
        ops.push(
            DrawOp::FillCircle {
                cx: p.x,
                cy: p.y,
                r: p.size,
                paint: Paint::Flat(
                    Color {
                        r: theme.particles.color.r,
                        g: theme.particles.color.g,
                        b: theme.particles.color.b,
                        a,
                    },
                ),
                alpha: 1_000_000,
            },
        );
        i += 1;
    }
}

/// The value of a hexadecimal digit byte, if it is one.
pub open spec fn spec_hex_val(b: int) -> Option<int> {
    if 48 <= b <= 57 {
        Option::Some(b - 48)
    } else if 97 <= b <= 102 {
        Option::Some(b - 87)
    } else if 65 <= b <= 70 {
        Option::Some(b - 55)
    } else {
        Option::None
    }
}

/// A byte channel from two hexadecimal digit bytes, the neutral 128 when
/// either is no digit.
pub open spec fn spec_hex_pair(h: int, l: int) -> int {
    match (spec_hex_val(h), spec_hex_val(l)) {
        (Option::Some(a), Option::Some(b)) => 16 * a + b,
        _ => 128,
    }
}

/// Whether a byte is an ASCII decimal digit.
pub open spec fn is_digit(b: int) -> bool {
    48 <= b <= 57
}

/// The value of a nonempty all-digit byte sequence.
pub open spec fn spec_digits_val(s: Seq<u8>) -> Option<int>
    decreases s.len(),
{
    if s.len() == 0 {
        Option::None
    } else if s.len() == 1 {
        if is_digit(s[0] as int) {
            Option::Some(s[0] - 48)
        } else {
            Option::None
        }
    } else {
        match spec_digits_val(s.drop_last()) {
            Option::Some(v) => if is_digit(s.last() as int) {
                Option::Some(v * 10 + (s.last() - 48))
            } else {
                Option::None
            },
            Option::None => Option::None,
        }
    }
}

/// A decimal channel value from a byte field: out-of-range or malformed
/// fields fall back to the neutral 128.
pub open spec fn spec_parse_u8_or(s: Seq<u8>) -> int {
    match spec_digits_val(s) {
        Option::Some(v) => if v <= 255 {
            v
        } else {
            128
        },
        Option::None => 128,
    }
}

/// A parsed digit value is never negative.
proof fn lemma_digits_val_nonneg(s: Seq<u8>)
    ensures
        match spec_digits_val(s) {
            Option::Some(v) => v >= 0,
            Option::None => true,
        },
    decreases s.len(),
{
    if s.len() > 1 {
        lemma_digits_val_nonneg(s.drop_last());
    }
}

/// A parsed fraction stays within `[0, 10 * scale]`.
proof fn lemma_frac_val_bounds(s: Seq<u8>, scale: int)
    requires
        scale >= 0,
    ensures
        match spec_frac_val(s, scale) {
            Option::Some(v) => 0 <= v <= 10 * scale,
            Option::None => true,
        },
    decreases s.len(),
{
    if s.len() > 0 && is_digit(s[0] as int) {
        vstd::arithmetic::div_mod::lemma_fundamental_div_mod(scale, 10);
        vstd::arithmetic::div_mod::lemma_mod_bound(scale, 10);
        vstd::arithmetic::div_mod::lemma_div_pos_is_pos(scale, 10);
        lemma_frac_val_bounds(s.drop_first(), scale / 10);
        match spec_frac_val(s.drop_first(), scale / 10) {
            Option::Some(v) => {
                let d = s[0] - 48;
                assert(0 <= d * scale <= 9 * scale) by (nonlinear_arith)
                    requires
                        0 <= d <= 9,
                        scale >= 0,
                ;
            },
            Option::None => {},
        }
    }
}

/// The index of the first occurrence of a byte, or the length.
pub open spec fn spec_find_byte(s: Seq<u8>, b: u8) -> nat
    decreases s.len(),
{
    if s.len() == 0 {
        0
    } else if s[0] == b {
        0
    } else {
        1 + spec_find_byte(s.drop_first(), b)
    }
}

/// The first byte index never passes the length.
pub proof fn lemma_find_byte_len(s: Seq<u8>, b: u8)
    ensures
        spec_find_byte(s, b) <= s.len(),
    decreases s.len(),
{
    if s.len() > 0 && s[0] != b {
        lemma_find_byte_len(s.drop_first(), b);
    }
}

/// The field up to the first comma, and what follows that comma.
pub open spec fn spec_field(s: Seq<u8>) -> (Seq<u8>, Seq<u8>) {
    let i = spec_find_byte(s, 44);
    if i >= s.len() {
        (s, Seq::empty())
    } else {
        (s.take(i as int), s.skip(i + 1 as int))
    }
}

/// A byte sequence with its trailing closing parentheses removed.
pub open spec fn spec_trim_parens(s: Seq<u8>) -> Seq<u8>
    decreases s.len(),
{
    if s.len() > 0 && s.last() == 41 {
        spec_trim_parens(s.drop_last())
    } else {
        s
    }
}

/// Whether a byte is a blank (space or tab).
pub open spec fn is_blank(b: int) -> bool {
    b == 32 || b == 9
}

/// A byte sequence with its leading blanks removed.
pub open spec fn spec_trim_front(s: Seq<u8>) -> Seq<u8>
    decreases s.len(),
{
    if s.len() > 0 && is_blank(s[0] as int) {
        spec_trim_front(s.drop_first())
    } else {
        s
    }
}

/// A byte sequence with its trailing blanks removed.
pub open spec fn spec_trim_back(s: Seq<u8>) -> Seq<u8>
    decreases s.len(),
{
    if s.len() > 0 && is_blank(s.last() as int) {
        spec_trim_back(s.drop_last())
    } else {
        s
    }
}

/// A byte sequence with blanks removed at both ends.
pub open spec fn spec_trim(s: Seq<u8>) -> Seq<u8> {
    spec_trim_back(spec_trim_front(s))
}

/// The micro-unit value of fraction digits under a decreasing place
/// scale; digits past the sixth contribute nothing.
pub open spec fn spec_frac_val(s: Seq<u8>, scale: int) -> Option<int>
    decreases s.len(),
{
    if s.len() == 0 {
        Option::Some(0)
    } else if !is_digit(s[0] as int) {
        Option::None
    } else {
        match spec_frac_val(s.drop_first(), scale / 10) {
            Option::Some(v) => Option::Some(v + (s[0] - 48) * scale),
            Option::None => Option::None,
        }
    }
}

/// The micro-unit value of a plain decimal field (`digits`, `digits .
/// digits`, `. digits` or `digits .`), if well-formed.
pub open spec fn spec_decimal_micro(s: Seq<u8>) -> Option<int> {
    let dot = spec_find_byte(s, 46);
    if dot >= s.len() {
        match spec_digits_val(s) {
            Option::Some(v) => Option::Some(v * 1_000_000),
            Option::None => Option::None,
        }
    } else {
        let ip = s.take(dot as int);
        let fp = s.skip(dot + 1 as int);
        if ip.len() == 0 && fp.len() == 0 {
            Option::None
        } else {
            let iv = if ip.len() == 0 {
                Option::Some(0int)
            } else {
                spec_digits_val(ip)
            };
            match (iv, spec_frac_val(fp, 100_000)) {
                (Option::Some(a), Option::Some(b)) => Option::Some(a * 1_000_000 + b),
                _ => Option::None,
            }
        }
    }
}

/// An alpha from a byte field, clamped into `[0, 1]`; malformed fields
/// fall back to opaque.
pub open spec fn spec_parse_alpha(s: Seq<u8>) -> int {
    match spec_decimal_micro(s) {
        Option::Some(v) => crate::fixed::spec_clamp(v, 0, 1_000_000),
        Option::None => 1_000_000,
    }
}

/// The inner bytes of a functional color form: the `rgba(` or `rgb(`
/// prefix and any trailing parentheses removed.
pub open spec fn spec_rgb_inner(s: Seq<u8>) -> Seq<u8> {
    let stripped = if s.len() >= 5 && s.take(5) =~= seq![114u8, 103u8, 98u8, 97u8, 40u8] {
        s.skip(5)
    } else if s.len() >= 4 && s.take(4) =~= seq![114u8, 103u8, 98u8, 40u8] {
        s.skip(4)
    } else {
        s
    };
    spec_trim_parens(stripped)
}

/// The color a byte string parses to: `#rrggbb` hexadecimal, the
/// functional `rgb(...)` / `rgba(...)` forms with blank-trimmed decimal
/// fields, or the neutral gray for anything else.
pub open spec fn spec_parse_color(s: Seq<u8>) -> Color {
    if s.len() == 7 && s[0] == 35 {
        Color {
            r: spec_hex_pair(s[1] as int, s[2] as int) as u8,
            g: spec_hex_pair(s[3] as int, s[4] as int) as u8,
            b: spec_hex_pair(s[5] as int, s[6] as int) as u8,
            a: 1_000_000,
        }
    } else if s.len() >= 3 && s[0] == 114 && s[1] == 103 && s[2] == 98 {
        let inner = spec_rgb_inner(s);
        let f0 = spec_field(inner);
        let f1 = spec_field(f0.1);
        let f2 = spec_field(f1.1);
        let f3 = spec_field(f2.1);
        Color {
            r: spec_parse_u8_or(spec_trim(f0.0)) as u8,
            g: spec_parse_u8_or(spec_trim(f1.0)) as u8,
            b: spec_parse_u8_or(spec_trim(f2.0)) as u8,
            a: spec_parse_alpha(spec_trim(f3.0)) as u64,
        }
    } else {
        Color { r: 128, g: 128, b: 128, a: 1_000_000 }
    }
}

/// The first index of a byte, or the slice length.
fn find_byte(s: &[u8], b: u8) -> (r: usize)
    ensures
        r == spec_find_byte(s@, b),
        r <= s@.len(),
    decreases s@.len(),
{
    proof {
        lemma_find_byte_len(s@, b);
    }
    if s.len() == 0 {
        0
    } else if s[0] == b {
        0
    } else {
        proof {
            assert(s@.subrange(1, s@.len() as int) =~= s@.drop_first());
        }
        1 + find_byte(vstd::slice::slice_subrange(s, 1, s.len()), b)
    }
}

/// The value of a hexadecimal digit byte, if it is one.
fn hex_val(b: u8) -> (r: Option<u8>)
    ensures
        match r {
            Option::Some(v) => spec_hex_val(b as int) == Option::Some(v as int),
            Option::None => spec_hex_val(b as int) is None,
        },
{
    if 48 <= b && b <= 57 {
        Some(b - 48)
    } else if 97 <= b && b <= 102 {
        Some(b - 87)
    } else if 65 <= b && b <= 70 {
        Some(b - 55)
    } else {
        None
    }
}

/// A byte channel from two hexadecimal digit bytes, 128 as fallback.
fn hex_pair(h: u8, l: u8) -> (r: u8)
    ensures
        r == spec_hex_pair(h as int, l as int),
{
    match (hex_val(h), hex_val(l)) {
        (Some(a), Some(b)) => 16 * a + b,
        _ => 128,
    }
}

/// The digit value of a field, saturated just past the channel range.
fn digits_val_sat(s: &[u8]) -> (r: Option<u64>)
    ensures
        match spec_digits_val(s@) {
            Option::Some(v) => r == Option::Some((if v <= 256 { v } else { 256 }) as u64),
            Option::None => r is None,
        },
    decreases s@.len(),
{
    proof {
        lemma_digits_val_nonneg(s@);
    }
    if s.len() == 0 {
        None
    } else if s.len() == 1 {
        let b = s[0];
        if 48 <= b && b <= 57 {
            Some((b - 48) as u64)
        } else {
            None
        }
    } else {
        proof {
            assert(s@.subrange(0, s@.len() - 1) =~= s@.drop_last());
        }
        let front = digits_val_sat(vstd::slice::slice_subrange(s, 0, s.len() - 1));
        match front {
            Some(v) => {
                let b = s[s.len() - 1];
                if 48 <= b && b <= 57 {
                    let nv = if v >= 256 {
                        256
                    } else {
                        v * 10 + ((b - 48) as u64)
                    };
                    Some(
                        if nv >= 256 {
                            256
                        } else {
                            nv
                        },
                    )
                } else {
                    None
                }
            },
            None => None,
        }
    }
}

/// A decimal channel value from a byte field, 128 as fallback.
fn parse_u8_or(s: &[u8]) -> (r: u8)
    ensures
        r == spec_parse_u8_or(s@),
{
    proof {
        lemma_digits_val_nonneg(s@);
    }
    match digits_val_sat(s) {
        Some(v) => if v <= 255 {
            v as u8
        } else {
            128
        },
        None => 128,
    }
}

/// The micro-unit value of fraction digits, place scale decreasing.
fn frac_val(s: &[u8], scale: u64) -> (r: Option<u64>)
    requires
        scale <= 100_000,
    ensures
        match spec_frac_val(s@, scale as int) {
            Option::Some(v) => r is Some && r == Option::Some(v as u64) && v <= 10 * scale,
            Option::None => r is None,
        },
    decreases s@.len(),
{
    proof {
        lemma_frac_val_bounds(s@, scale as int);
    }
    if s.len() == 0 {
        Some(0)
    } else {
        let b = s[0];
        if 48 <= b && b <= 57 {
            proof {
                assert(s@.subrange(1, s@.len() as int)
                    =~= s@.drop_first());
                lemma_frac_val_bounds(s@.drop_first(), scale as int / 10);
                vstd::arithmetic::div_mod::lemma_fundamental_div_mod(scale as int, 10);
                vstd::arithmetic::div_mod::lemma_mod_bound(scale as int, 10);
            }
            let rest = frac_val(vstd::slice::slice_subrange(s, 1, s.len()), scale / 10);
            match rest {
                Some(v) => {
                    proof {
                        assert(0 <= (b - 48) * scale <= 9 * scale) by (nonlinear_arith)
                            requires
                                48 <= b <= 57,
                                scale >= 0,
                        ;
                    }
                    Some(v + ((b - 48) as u64) * scale)
                },
                None => None,
            }
        } else {
            None
        }
    }
}

/// Trim trailing closing parentheses.
fn trim_parens(s: &[u8]) -> (r: &[u8])
    ensures
        r@ == spec_trim_parens(s@),
    decreases s@.len(),
{
    if s.len() > 0 && s[s.len() - 1] == 41 {
        proof {
            assert(s@.subrange(0, s@.len() - 1) =~= s@.drop_last());
        }
        trim_parens(vstd::slice::slice_subrange(s, 0, s.len() - 1))
    } else {
        s
    }
}

/// Trim blanks at both ends.
fn trim_blanks(s: &[u8]) -> (r: &[u8])
    ensures
        r@ == spec_trim(s@),
{
    let mut t = s;
    while t.len() > 0 && (t[0] == 32 || t[0] == 9)
        invariant
            spec_trim_front(s@) == spec_trim_front(t@),
        decreases t@.len(),
    {
        proof {
            assert(t@.subrange(1, t@.len() as int) =~= t@.drop_first());
        }
        t = vstd::slice::slice_subrange(t, 1, t.len());
    }
    proof {
        assert(spec_trim_front(t@) == t@);
    }
    let mut u = t;
    while u.len() > 0 && (u[u.len() - 1] == 32 || u[u.len() - 1] == 9)
        invariant
            spec_trim_back(t@) == spec_trim_back(u@),
        decreases u@.len(),
    {
        proof {
            assert(u@.subrange(0, u@.len() - 1) =~= u@.drop_last());
        }
        u = vstd::slice::slice_subrange(u, 0, u.len() - 1);
    }
    proof {
        assert(spec_trim_back(u@) == u@);
    }
    u
}

/// Split off the field before the first comma.
fn take_field<'a>(s: &'a [u8]) -> (r: (&'a [u8], &'a [u8]))
    ensures
        r.0@ == spec_field(s@).0,
        r.1@ == spec_field(s@).1,
{
    let i = find_byte(s, 44);
    if i >= s.len() {
        let empty = vstd::slice::slice_subrange(s, s.len(), s.len());
        proof {
            assert(empty@ =~= Seq::<u8>::empty());
        }
        (s, empty)
    } else {
        proof {
            assert(s@.subrange(0, i as int) =~= s@.take(i as int));
            assert(s@.subrange(i + 1, s@.len() as int) =~= s@.skip(
                i + 1,
            ));
        }
        (vstd::slice::slice_subrange(s, 0, i), vstd::slice::slice_subrange(s, i + 1, s.len()))
    }
}

/// An alpha from a byte field, clamped into `[0, 1]`, opaque fallback.
fn parse_alpha(s: &[u8]) -> (r: u64)
    ensures
        r == spec_parse_alpha(s@),
{
    proof {
        lemma_digits_val_nonneg(s@);
    }
    let dot = find_byte(s, 46);
    if dot >= s.len() {
        match digits_val_sat(s) {
            Some(v) => {
                // any whole value of one or more is clamped to one
                if v >= 1 {
                    proof {
                        let sv = spec_digits_val(s@).unwrap();
                        assert(sv * 1_000_000 >= 1_000_000) by (nonlinear_arith)
                            requires
                                sv >= 1,
                        ;
                        vstd::arithmetic::mul::lemma_mul_nonnegative(sv, 1_000_000);
                    }
                    1_000_000
                } else {
                    0
                }
            },
            None => 1_000_000,
        }
    } else {
        proof {
            assert(s@.subrange(0, dot as int) =~= s@.take(dot as int));
            assert(s@.subrange(dot + 1, s@.len() as int) =~= s@.skip(
                dot + 1,
            ));
        }
        let ip = vstd::slice::slice_subrange(s, 0, dot);
        let fp = vstd::slice::slice_subrange(s, dot + 1, s.len());
        proof {
            lemma_digits_val_nonneg(ip@);
            lemma_frac_val_bounds(fp@, 100_000);
        }
        if ip.len() == 0 && fp.len() == 0 {
            1_000_000
        } else {
            let iv: Option<u64> = if ip.len() == 0 {
                Some(0)
            } else {
                digits_val_sat(ip)
            };
            match (iv, frac_val(fp, 100_000)) {
                (Some(a), Some(b)) => {
                    if a >= 1 {
                        proof {
                            let sv = if ip@.len() == 0 {
                                0int
                            } else {
                                spec_digits_val(ip@).unwrap()
                            };
                            assert(sv * 1_000_000 >= 1_000_000) by (nonlinear_arith)
                                requires
                                    sv >= 1,
                            ;
                        }
                        1_000_000
                    } else {
                        proof {
                            assert(0 * 1_000_000 == 0) by (nonlinear_arith);
                        }
                        b
                    }
                },
                _ => 1_000_000,
            }
        }
    }
}

/// Parse a CSS color string: `#rrggbb` hexadecimal or the functional
/// `rgb(...)` / `rgba(...)` forms; anything else falls back to a neutral
/// gray rather than aborting the frame.
pub fn parse_color(color_str: &str) -> (r: Color)
    ensures
        r == spec_parse_color(color_str.spec_bytes()),
        r.wf(),
{
    let s = color_str.as_bytes();
    if s.len() == 7 && s[0] == 35 {
        Color {
            r: hex_pair(s[1], s[2]),
            g: hex_pair(s[3], s[4]),
            b: hex_pair(s[5], s[6]),
            a: UNIT,
        }
    } else if s.len() >= 3 && s[0] == 114 && s[1] == 103 && s[2] == 98 {
        let stripped: &[u8] = if s.len() >= 5 && s[3] == 97 && s[4] == 40 {
            proof {
                assert(s@.take(5) =~= seq![114u8, 103u8, 98u8, 97u8, 40u8]);
                assert(s@.subrange(5, s@.len() as int) =~= s@.skip(5));
            }
            vstd::slice::slice_subrange(s, 5, s.len())
        } else if s.len() >= 4 && s[3] == 40 {
            proof {
                assert(s@.take(4) =~= seq![114u8, 103u8, 98u8, 40u8]);
                assert(s@.subrange(4, s@.len() as int) =~= s@.skip(4));
                if s@.len() >= 5 {
                    assert(!(s@.take(5) =~= seq![114u8, 103u8, 98u8, 97u8, 40u8]));
                }
            }
            vstd::slice::slice_subrange(s, 4, s.len())
        } else {
            proof {
                if s@.len() >= 5 && s@[3] == 97 && s@[4] == 40 {
                    assert(false);
                }
                if s@.len() >= 5 {
                    assert(!(s@.take(5) =~= seq![114u8, 103u8, 98u8, 97u8, 40u8]));
                }
                if s@.len() >= 4 {
                    assert(!(s@.take(4) =~= seq![114u8, 103u8, 98u8, 40u8]));
                }
            }
            s
        };
        let inner = trim_parens(stripped);
        let (f0, rest0) = take_field(inner);
        let (f1, rest1) = take_field(rest0);
        let (f2, rest2) = take_field(rest1);
        let (f3, _rest3) = take_field(rest2);
        Color {
            r: parse_u8_or(trim_blanks(f0)),
            g: parse_u8_or(trim_blanks(f1)),
            b: parse_u8_or(trim_blanks(f2)),
            a: parse_alpha(trim_blanks(f3)),
        }
    } else {
        Color { r: 128, g: 128, b: 128, a: UNIT }
    }
}

/// The distance between two points in milli-pixels: exact integer square
/// root over milli-pixel components, so a vanishing distance means the
/// endpoints sit within a thousandth of a pixel.
pub open spec fn spec_dist_milli(x1: int, y1: int, x2: int, y2: int) -> int {
    let dxm = tdiv(x2 - x1, 1000);
    let dym = tdiv(y2 - y1, 1000);
    spec_isqrt(dxm * dxm + dym * dym)
}

/// One micro-unit component of the unit direction along a displacement,
/// at a milli-pixel distance `dm`.
pub open spec fn spec_unit(d: int, dm: int) -> int {
    tdiv(d * 1000, dm)
}

/// Bounds the interaction methods put on positions: see
/// [`crate::state::COORD_LIMIT`].
pub open spec fn coord_ok(x: int) -> bool {
    -crate::state::COORD_LIMIT <= x <= crate::state::COORD_LIMIT
}

/// The milli-pixel distance and micro-unit direction between two points;
/// the direction only means something at a positive distance.
fn edge_geometry(x1: i64, y1: i64, x2: i64, y2: i64) -> (r: (u64, i64, i64))
    requires
        coord_ok(x1 as int),
        coord_ok(y1 as int),
        coord_ok(x2 as int),
        coord_ok(y2 as int),
    ensures
        r.0 == spec_dist_milli(x1 as int, y1 as int, x2 as int, y2 as int),
        r.0 > 0 ==> {
            &&& r.1 == spec_unit(x2 - x1, r.0 as int)
            &&& r.2 == spec_unit(y2 - y1, r.0 as int)
            &&& -2_000_000 <= r.1 <= 2_000_000
            &&& -2_000_000 <= r.2 <= 2_000_000
        },
{
    let dx = x2 - x1;
    let dy = y2 - y1;
    proof {
        crate::fixed::lemma_tdiv_bounds(dx as int, 1000);
        crate::fixed::lemma_tdiv_bounds(dy as int, 1000);
    }
    let dxm = mul_div_signed(dx, 1, 1000);
    let dym = mul_div_signed(dy, 1, 1000);
    proof {
        assert(dx * 1 == dx) by (nonlinear_arith);
        assert(dy * 1 == dy) by (nonlinear_arith);
        assert(dxm * dxm <= 4_000_000_000_000_000_000 && dxm * dxm >= 0) by (nonlinear_arith)
            requires
                -2_000_000_000 <= dxm <= 2_000_000_000,
        ;
        assert(dym * dym <= 4_000_000_000_000_000_000 && dym * dym >= 0) by (nonlinear_arith)
            requires
                -2_000_000_000 <= dym <= 2_000_000_000,
        ;
    }
    let sq: u64 = ((dxm * dxm) as u64) + ((dym * dym) as u64);
    let dm = crate::fixed::isqrt(sq);
    if dm == 0 {
        (0, 0, 0)
    } else {
        proof {
            lemma_unit_component(dx as int, dxm as int, dym as int, dm as int);
            lemma_unit_component(dy as int, dym as int, dxm as int, dm as int);
        }
        let ux = mul_div_signed(dx, 1000, dm);
        let uy = mul_div_signed(dy, 1000, dm);
        (dm, ux, uy)
    }
}

/// A unit direction component stays within twice a whole unit: the
/// distance root dominates each milli-pixel component.
proof fn lemma_unit_component(d: int, dm_own: int, dm_other: int, dist: int)
    requires
        dm_own == tdiv(d, 1000),
        -2_000_000_000_000 <= d <= 2_000_000_000_000,
        dist == spec_isqrt(dm_own * dm_own + dm_other * dm_other),
        dist >= 1,
    ensures
        -2_000_000 <= tdiv(d * 1000, dist) <= 2_000_000,
        -2_000_000_000_000_000 <= d * 1000 <= 2_000_000_000_000_000,
{
    let dd = dm_own * dm_own + dm_other * dm_other;
    assert(dm_other * dm_other >= 0 && dm_own * dm_own >= 0) by (nonlinear_arith);
    crate::fixed::lemma_isqrt_exists(dd);
    assert(dist + 1 > 0);
    // the root dominates the component: (dist+1)^2 > dm_own^2
    assert((dist + 1) * (dist + 1) > dm_own * dm_own) by (nonlinear_arith)
        requires
            (dist + 1) * (dist + 1) > dd,
            dd >= dm_own * dm_own,
    ;
    assert(-(dist + 1) < dm_own < dist + 1) by (nonlinear_arith)
        requires
            (dist + 1) * (dist + 1) > dm_own * dm_own,
            dist + 1 > 0,
    ;
    // |d| <= 1000 |dm_own| + 999, from the truncating division
    if d >= 0 {
        vstd::arithmetic::div_mod::lemma_fundamental_div_mod(d, 1000);
        vstd::arithmetic::div_mod::lemma_mod_bound(d, 1000);
    } else {
        vstd::arithmetic::div_mod::lemma_fundamental_div_mod(-d, 1000);
        vstd::arithmetic::div_mod::lemma_mod_bound(-d, 1000);
    }
    assert(-(1000 * dm_own + 1000) < d < 1000 * dm_own + 1000 || (-(1000 * (-dm_own) + 1000) < d
        < 1000 * (-dm_own) + 1000));
    assert(-(2_000_000 * dist) <= d * 1000 <= 2_000_000 * dist) by (nonlinear_arith)
        requires
            dist >= 1,
            -(dist + 1) < dm_own < dist + 1,
            (-(1000 * dm_own + 1000) < d < 1000 * dm_own + 1000) || (-(1000 * (-dm_own) + 1000) < d
                < 1000 * (-dm_own) + 1000),
    ;
    crate::fixed::lemma_tdiv_quotient_bound(d * 1000, dist, 2_000_000);
    assert(-2_000_000_000_000_000 <= d * 1000 <= 2_000_000_000_000_000) by (nonlinear_arith)
        requires
            -2_000_000_000_000 <= d <= 2_000_000_000_000,
    ;
}

/// Working bounds on resolved scale values at a working zoom.
pub open spec fn scale_ok(scale: ScaledValues) -> bool {
    &&& 100_000 <= scale.k <= 10_000_000
    &&& scale.node_radius <= 100_000_000_000_000
    &&& scale.hit_radius <= 100_000_000_000_000
    &&& scale.edge_line_width <= 100_000_000_000_000
    &&& scale.arrow_size <= 100_000_000_000_000
    &&& scale.ring_width <= 100_000_000_000_000
    &&& scale.ring_offset <= 100_000_000_000_000
    &&& scale.dash_pattern.0 <= 1_000_000_000_000
    &&& scale.dash_pattern.1 <= 1_000_000_000_000
    &&& scale.dash_alpha <= 1_000_000
    &&& scale.arrow_alpha <= 1_000_000
    &&& scale.label_font_size <= 100_000_000_000_000
}

/// An offset point along a unit direction: `p + u * off / 1`.
pub open spec fn spec_along(p: int, u: int, off: int) -> int {
    p + tdiv(u * off, 1_000_000)
}

/// The glow stroke of one edge: skipped for vanishing edges and
/// invisible glows; otherwise a wide stroke under the main line, eased
/// brighter when the edge is highlighted and dimmer when something else
/// is.
pub open spec fn spec_edge_glow_ops(
    theme: Theme,
    scale: ScaledValues,
    x1: int,
    y1: int,
    x2: int,
    y2: int,
    ea: int,
    maxi: int,
) -> Seq<DrawOp> {
    let dm = spec_dist_milli(x1, y1, x2, y2);
    if dm == 0 {
        Seq::empty()
    } else {
        let gi = theme.edge.glow_intensity as int;
        let ga = if ea > 10_000 {
            gi * (600_000 + 2 * spec_smooth_step(ea) / 5) / 1_000_000
        } else if maxi > 10_000 {
            gi * (600_000 - 2 * spec_smooth_step(maxi) / 5) / 1_000_000
        } else {
            gi * 600_000 / 1_000_000
        };
        if ga < 10_000 {
            Seq::empty()
        } else {
            let width = (scale.edge_line_width * 4) as u64;
            let color = Color {
                r: theme.edge.glow_color.r,
                g: theme.edge.glow_color.g,
                b: theme.edge.glow_color.b,
                a: (ga * theme.edge.glow_color.a / 1_000_000) as u64,
            };
            let ux = spec_unit(x2 - x1, dm);
            let uy = spec_unit(y2 - y1, dm);
            if theme.edge.curved && dm * 1000 > 4 * scale.node_radius {
                seq![
                    spec_curved_edge_op(
                        x1,
                        y1,
                        x2,
                        y2,
                        ux,
                        uy,
                        scale.node_radius as int,
                        theme.edge.curve_tension as int,
                        width,
                        color,
                    ),
                ]
            } else {
                seq![
                    DrawOp::StrokeLine {
                        x1: spec_along(x1, ux, scale.node_radius as int) as i64,
                        y1: spec_along(y1, uy, scale.node_radius as int) as i64,
                        x2: spec_along(x2, -ux, scale.node_radius as int) as i64,
                        y2: spec_along(y2, -uy, scale.node_radius as int) as i64,
                        width,
                        color,
                        dash: Option::None,
                    },
                ]
            }
        }
    }
}

/// A quadratic edge stroke: endpoints pulled in along the direction, the
/// control point displaced perpendicular by the tension's share of the
/// distance.
pub open spec fn spec_curved_edge_op(
    x1: int,
    y1: int,
    x2: int,
    y2: int,
    ux: int,
    uy: int,
    offset: int,
    tension: int,
    width: u64,
    color: Color,
) -> DrawOp {
    let dm = spec_dist_milli(x1, y1, x2, y2);
    let curve_off = dm * 1000 * tension / 1_000_000 * 3 / 10;
    let px = tdiv(-uy * curve_off, 1_000_000);
    let py = tdiv(ux * curve_off, 1_000_000);
    DrawOp::StrokeQuad {
        x1: spec_along(x1, ux, offset) as i64,
        y1: spec_along(y1, uy, offset) as i64,
        cx: (tdiv(x1 + x2, 2) + px) as i64,
        cy: (tdiv(y1 + y2, 2) + py) as i64,
        x2: spec_along(x2, -ux, offset) as i64,
        y2: spec_along(y2, -uy, offset) as i64,
        width,
        color,
        dash: Option::None,
    }
}

/// The main stroke of one edge with its arrowhead: skipped for vanishing
/// edges; alpha, width and dashing follow the eased highlight state and
/// the resolved dash visibility, and the arrowhead fills a triangle at
/// the target end unless culled.
pub open spec fn spec_edge_main_ops(
    theme: Theme,
    scale: ScaledValues,
    x1: int,
    y1: int,
    x2: int,
    y2: int,
    ea: int,
    maxi: int,
    dash_offset: int,
) -> Seq<DrawOp> {
    let dm = spec_dist_milli(x1, y1, x2, y2);
    if dm == 0 {
        Seq::empty()
    } else {
        let edge_t = spec_smooth_step(ea);
        let max_t = spec_smooth_step(maxi);
        let lw = scale.edge_line_width as int;
        let edge_alpha = if edge_t > 10_000 {
            700_000 + 3 * edge_t / 10
        } else if max_t > 10_000 {
            700_000 - max_t / 2
        } else {
            700_000
        };
        let base_arrow_alpha = if edge_t > 10_000 {
            900_000 + edge_t / 10
        } else if max_t > 10_000 {
            900_000 - 3 * max_t / 5
        } else {
            900_000
        };
        let base_width = if edge_t > 10_000 {
            lw * (1_000_000 + 2 * edge_t / 5) / 1_000_000
        } else if max_t > 10_000 {
            lw * (1_000_000 - 3 * max_t / 10) / 1_000_000
        } else {
            lw
        };
        let width = (base_width * (1_000_000 + 3 * (1_000_000 - scale.dash_alpha) / 10)
            / 1_000_000) as u64;
        let arrow_alpha = base_arrow_alpha * scale.arrow_alpha / 1_000_000;
        let color = Color {
            r: theme.edge.color.r,
            g: theme.edge.color.g,
            b: theme.edge.color.b,
            a: (edge_alpha * theme.edge.color.a / 1_000_000) as u64,
        };
        let effective_gap = scale.dash_pattern.1 * scale.dash_alpha / 1_000_000;
        let dash = if effective_gap > 100_000 {
            Option::Some((scale.dash_pattern.0, effective_gap as u64, dash_offset as i64))
        } else {
            Option::<(u64, u64, i64)>::None
        };
        let ux = spec_unit(x2 - x1, dm);
        let uy = spec_unit(y2 - y1, dm);
        let nr = scale.node_radius as int;
        let asz = scale.arrow_size as int;
        let line = if theme.edge.curved && dm * 1000 > 4 * nr {
            spec_curved_edge_with_dash(x1, y1, x2, y2, ux, uy, nr + asz, theme.edge.curve_tension as int, width, color, dash)
        } else {
            DrawOp::StrokeLine {
                x1: spec_along(x1, ux, nr) as i64,
                y1: spec_along(y1, uy, nr) as i64,
                x2: spec_along(x2, -ux, nr + asz) as i64,
                y2: spec_along(y2, -uy, nr + asz) as i64,
                width,
                color,
                dash,
            }
        };
        if !scale.cull_arrows && arrow_alpha > 0 {
            let tip_x = spec_along(x2, -ux, nr);
            let tip_y = spec_along(y2, -uy, nr);
            let back_x = spec_along(tip_x, -ux, asz);
            let back_y = spec_along(tip_y, -uy, asz);
            let px = tdiv(-uy * asz, 2_000_000);
            let py = tdiv(ux * asz, 2_000_000);
            seq![
                line,
                DrawOp::FillTriangle {
                    x1: tip_x as i64,
                    y1: tip_y as i64,
                    x2: (back_x + px) as i64,
                    y2: (back_y + py) as i64,
                    x3: (back_x - px) as i64,
                    y3: (back_y - py) as i64,
                    color: Color {
                        r: theme.edge.color.r,
                        g: theme.edge.color.g,
                        b: theme.edge.color.b,
                        a: (arrow_alpha * theme.edge.color.a / 1_000_000) as u64,
                    },
                },
            ]
        } else {
            seq![line]
        }
    }
}

/// The quadratic edge stroke of the main pass, dash pattern included.
pub open spec fn spec_curved_edge_with_dash(
    x1: int,
    y1: int,
    x2: int,
    y2: int,
    ux: int,
    uy: int,
    offset: int,
    tension: int,
    width: u64,
    color: Color,
    dash: Option<(u64, u64, i64)>,
) -> DrawOp {
    let dm = spec_dist_milli(x1, y1, x2, y2);
    let curve_off = dm * 1000 * tension / 1_000_000 * 3 / 10;
    let px = tdiv(-uy * curve_off, 1_000_000);
    let py = tdiv(ux * curve_off, 1_000_000);
    DrawOp::StrokeQuad {
        x1: spec_along(x1, ux, offset) as i64,
        y1: spec_along(y1, uy, offset) as i64,
        cx: (tdiv(x1 + x2, 2) + px) as i64,
        cy: (tdiv(y1 + y2, 2) + py) as i64,
        x2: spec_along(x2, -ux, offset) as i64,
        y2: spec_along(y2, -uy, offset) as i64,
        width,
        color,
        dash,
    }
}

/// A point moved along a unit direction by a world-space offset.
fn along(p: i64, u: i64, off: u64) -> (r: i64)
    requires
        coord_ok(p as int),
        -2_000_000 <= u <= 2_000_000,
        off <= 400_000_000_000_000,
    ensures
        r == spec_along(p as int, u as int, off as int),
        -801_000_000_000_000_000 <= r <= 801_000_000_000_000_000,
{
    proof {
        assert(-(800_000_000_000_000_000 as int) * 1_000_000 <= u * off <= 800_000_000_000_000_000
            * 1_000_000) by (nonlinear_arith)
            requires
                -2_000_000 <= u <= 2_000_000,
                0 <= off <= 400_000_000_000_000,
        ;
        crate::fixed::lemma_tdiv_quotient_bound(u * off, 1_000_000, 800_000_000_000_000_000);
    }
    let d = mul_div_signed(u, off, UNIT);
    p + d
}

/// Stroke the quadratic form of an edge.
fn draw_curved_edge(
    ops: &mut Vec<DrawOp>,
    x1: i64,
    y1: i64,
    x2: i64,
    y2: i64,
    ux: i64,
    uy: i64,
    dm: u64,
    offset: u64,
    tension: u64,
    width: u64,
    color: Color,
    dash: Option<(u64, u64, i64)>,
)
    requires
        coord_ok(x1 as int),
        coord_ok(y1 as int),
        coord_ok(x2 as int),
        coord_ok(y2 as int),
        -2_000_000 <= ux <= 2_000_000,
        -2_000_000 <= uy <= 2_000_000,
        dm == spec_dist_milli(x1 as int, y1 as int, x2 as int, y2 as int),
        dm <= 3_000_000_000,
        offset <= 400_000_000_000_000,
        tension <= 1_000_000,
    ensures
        final(ops)@ == old(ops)@.push(
            spec_curved_edge_with_dash(
                x1 as int,
                y1 as int,
                x2 as int,
                y2 as int,
                ux as int,
                uy as int,
                offset as int,
                tension as int,
                width,
                color,
                dash,
            ),
        ),
{
    proof {
        vstd::arithmetic::mul::lemma_mul_nonnegative((dm * 1000) as int, tension as int);
        vstd::arithmetic::div_mod::lemma_div_pos_is_pos(dm * 1000 * tension, 1_000_000);
        assert(dm * 1000 * tension <= 3_000_000_000_000 * 1_000_000) by (nonlinear_arith)
            requires
                dm * 1000 <= 3_000_000_000_000,
                tension <= 1_000_000,
        ;
        vstd::arithmetic::div_mod::lemma_div_is_ordered(
            dm * 1000 * tension,
            (3_000_000_000_000 * 1_000_000) as int,
            1_000_000,
        );
        assert((3_000_000_000_000 * 1_000_000) as int / 1_000_000 == 3_000_000_000_000)
            by (nonlinear_arith);
    }
    let scaled = mul_div(dm * 1000, tension, UNIT);
    proof {
        vstd::arithmetic::mul::lemma_mul_nonnegative(scaled as int, 3);
        vstd::arithmetic::div_mod::lemma_div_pos_is_pos(scaled * 3, 10);
        vstd::arithmetic::div_mod::lemma_div_is_ordered(
            scaled * 3,
            (3_000_000_000_000 * 3) as int,
            10,
        );
        assert(scaled * 3 <= 3_000_000_000_000 * 3) by (nonlinear_arith)
            requires
                scaled <= 3_000_000_000_000,
        ;
        assert((3_000_000_000_000 * 3) as int / 10 == 900_000_000_000) by (nonlinear_arith);
    }
    let curve_off = mul_div(scaled, 3, 10);
    proof {
        assert(-(1_800_000_000_000 as int) * 1_000_000 <= (-uy) * curve_off <= 1_800_000_000_000
            * 1_000_000) by (nonlinear_arith)
            requires
                -2_000_000 <= uy <= 2_000_000,
                0 <= curve_off <= 900_000_000_000,
        ;
        assert(-(1_800_000_000_000 as int) * 1_000_000 <= ux * curve_off <= 1_800_000_000_000
            * 1_000_000) by (nonlinear_arith)
            requires
                -2_000_000 <= ux <= 2_000_000,
                0 <= curve_off <= 900_000_000_000,
        ;
        crate::fixed::lemma_tdiv_quotient_bound((-uy) * curve_off, 1_000_000, 1_800_000_000_000);
        crate::fixed::lemma_tdiv_quotient_bound(ux * curve_off, 1_000_000, 1_800_000_000_000);
        crate::fixed::lemma_tdiv_bounds((x1 + x2) as int, 2);
        crate::fixed::lemma_tdiv_bounds((y1 + y2) as int, 2);
    }
    let px = mul_div_signed(-uy, curve_off, UNIT);
    let py = mul_div_signed(ux, curve_off, UNIT);
    let mx = mul_div_signed(x1 + x2, 1, 2);
    let my = mul_div_signed(y1 + y2, 1, 2);
    proof {
        assert((x1 + x2) * 1 == x1 + x2) by (nonlinear_arith);
        assert((y1 + y2) * 1 == y1 + y2) by (nonlinear_arith);
        crate::fixed::lemma_tdiv_bounds((x1 + x2) * 1, 2);
        crate::fixed::lemma_tdiv_bounds((y1 + y2) * 1, 2);
    }
    ops.push(
        DrawOp::StrokeQuad {
            x1: along(x1, ux, offset),
            y1: along(y1, uy, offset),
            cx: mx + px,
            cy: my + py,
            x2: along(x2, -ux, offset),
            y2: along(y2, -uy, offset),
            width,
            color,
            dash,
        },
    );
}

/// Append the glow stroke of one edge, if it shows.
fn draw_edge_glow(
    ops: &mut Vec<DrawOp>,
    scale: &ScaledValues,
    theme: &Theme,
    x1: i64,
    y1: i64,
    x2: i64,
    y2: i64,
    ea: u64,
    maxi: u64,
)
    requires
        coord_ok(x1 as int),
        coord_ok(y1 as int),
        coord_ok(x2 as int),
        coord_ok(y2 as int),
        ea <= UNIT,
        maxi <= UNIT,
        scale_ok(*scale),
        theme.wf(),
    ensures
        final(ops)@ == old(ops)@ + spec_edge_glow_ops(
            *theme,
            *scale,
            x1 as int,
            y1 as int,
            x2 as int,
            y2 as int,
            ea as int,
            maxi as int,
        ),
{
    let (dm, ux, uy) = edge_geometry(x1, y1, x2, y2);
    if dm == 0 {
        proof {
            assert(final(ops)@ =~= old(ops)@ + Seq::<DrawOp>::empty());
        }
        return ;
    }
    let gi = theme.edge.glow_intensity;
    let factor: u64 = if ea > 10_000 {
        600_000 + 2 * smooth_step(ea) / 5
    } else if maxi > 10_000 {
        600_000 - 2 * smooth_step(maxi) / 5
    } else {
        600_000
    };
    proof {
        lemma_alpha_product(gi as int, factor as int);
    }
    let ga = mul_div(gi, factor, UNIT);
    if ga < 10_000 {
        proof {
            assert(final(ops)@ =~= old(ops)@ + spec_edge_glow_ops(
                *theme,
                *scale,
                x1 as int,
                y1 as int,
                x2 as int,
                y2 as int,
                ea as int,
                maxi as int,
            ));
        }
        return ;
    }
    proof {
        lemma_alpha_product(ga as int, theme.edge.glow_color.a as int);
        lemma_dist_milli_bound(x1 as int, y1 as int, x2 as int, y2 as int);
    }
    let width = scale.edge_line_width * 4;
    let color = Color {
        r: theme.edge.glow_color.r,
        g: theme.edge.glow_color.g,
        b: theme.edge.glow_color.b,
        a: mul_div(ga, theme.edge.glow_color.a, UNIT),
    };
    if theme.edge.curved && dm * 1000 > 4 * scale.node_radius {
        draw_curved_edge(
            ops,
            x1,
            y1,
            x2,
            y2,
            ux,
            uy,
            dm,
            scale.node_radius,
            theme.edge.curve_tension,
            width,
            color,
            None,
        );
        proof {
            assert(spec_curved_edge_with_dash(
                x1 as int,
                y1 as int,
                x2 as int,
                y2 as int,
                ux as int,
                uy as int,
                scale.node_radius as int,
                theme.edge.curve_tension as int,
                width,
                color,
                Option::None,
            ) == spec_curved_edge_op(
                x1 as int,
                y1 as int,
                x2 as int,
                y2 as int,
                ux as int,
                uy as int,
                scale.node_radius as int,
                theme.edge.curve_tension as int,
                width,
                color,
            ));
            assert(final(ops)@ =~= old(ops)@ + spec_edge_glow_ops(
                *theme,
                *scale,
                x1 as int,
                y1 as int,
                x2 as int,
                y2 as int,
                ea as int,
                maxi as int,
            ));
        }
    } else {
        ops.push(
            DrawOp::StrokeLine {
                x1: along(x1, ux, scale.node_radius),
                y1: along(y1, uy, scale.node_radius),
                x2: along(x2, -ux, scale.node_radius),
                y2: along(y2, -uy, scale.node_radius),
                width,
                color,
                dash: None,
            },
        );
        proof {
            assert(final(ops)@ =~= old(ops)@ + spec_edge_glow_ops(
                *theme,
                *scale,
                x1 as int,
                y1 as int,
                x2 as int,
                y2 as int,
                ea as int,
                maxi as int,
            ));
        }
    }
}

/// Two micro-unit fractions multiply into a micro-unit fraction.
proof fn lemma_alpha_product(a: int, b: int)
    requires
        0 <= a <= 1_000_000,
        0 <= b <= 1_000_000,
    ensures
        0 <= a * b / 1_000_000 <= 1_000_000,
        a * b / 1_000_000 <= a,
{
    vstd::arithmetic::mul::lemma_mul_inequality(b, 1_000_000, a);
    assert(b * a == a * b) by (nonlinear_arith);
    assert(1_000_000 * a == a * 1_000_000) by (nonlinear_arith);
    vstd::arithmetic::div_mod::lemma_div_is_ordered(a * b, a * 1_000_000, 1_000_000);
    vstd::arithmetic::div_mod::lemma_div_multiples_vanish(a, 1_000_000);
    vstd::arithmetic::mul::lemma_mul_nonnegative(a, b);
    vstd::arithmetic::div_mod::lemma_div_pos_is_pos(a * b, 1_000_000);
}

/// The milli-pixel distance of two in-range points is bounded.
proof fn lemma_dist_milli_bound(x1: int, y1: int, x2: int, y2: int)
    requires
        coord_ok(x1),
        coord_ok(y1),
        coord_ok(x2),
        coord_ok(y2),
    ensures
        0 <= spec_dist_milli(x1, y1, x2, y2) <= 3_000_000_000,
{
    let dxm = tdiv(x2 - x1, 1000);
    let dym = tdiv(y2 - y1, 1000);
    crate::fixed::lemma_tdiv_bounds(x2 - x1, 1000);
    crate::fixed::lemma_tdiv_bounds(y2 - y1, 1000);
    assert(0 <= dxm * dxm + dym * dym <= 8_000_000_000_000_000_000) by (nonlinear_arith)
        requires
            -2_000_000_000 <= dxm <= 2_000_000_000,
            -2_000_000_000 <= dym <= 2_000_000_000,
    ;
    crate::fixed::lemma_isqrt_exists(dxm * dxm + dym * dym);
    let r = spec_isqrt(dxm * dxm + dym * dym);
    assert(r <= 3_000_000_000) by (nonlinear_arith)
        requires
            r >= 0,
            r * r <= 8_000_000_000_000_000_000,
    ;
}

/// Append the main stroke and arrowhead of one edge.
fn draw_edge_main(
    ops: &mut Vec<DrawOp>,
    scale: &ScaledValues,
    theme: &Theme,
    x1: i64,
    y1: i64,
    x2: i64,
    y2: i64,
    ea: u64,
    maxi: u64,
    dash_offset: i64,
)
    requires
        coord_ok(x1 as int),
        coord_ok(y1 as int),
        coord_ok(x2 as int),
        coord_ok(y2 as int),
        ea <= UNIT,
        maxi <= UNIT,
        scale_ok(*scale),
        theme.wf(),
    ensures
        final(ops)@ == old(ops)@ + spec_edge_main_ops(
            *theme,
            *scale,
            x1 as int,
            y1 as int,
            x2 as int,
            y2 as int,
            ea as int,
            maxi as int,
            dash_offset as int,
        ),
{
    let ghost goal = spec_edge_main_ops(
        *theme,
        *scale,
        x1 as int,
        y1 as int,
        x2 as int,
        y2 as int,
        ea as int,
        maxi as int,
        dash_offset as int,
    );
    let (dm, ux, uy) = edge_geometry(x1, y1, x2, y2);
    if dm == 0 {
        proof {
            assert(final(ops)@ =~= old(ops)@ + goal);
        }
        return ;
    }
    let edge_t = smooth_step(ea);
    let max_t = smooth_step(maxi);
    let lw = scale.edge_line_width;
    let edge_alpha: u64 = if edge_t > 10_000 {
        700_000 + 3 * edge_t / 10
    } else if max_t > 10_000 {
        700_000 - max_t / 2
    } else {
        700_000
    };
    let base_arrow_alpha: u64 = if edge_t > 10_000 {
        900_000 + edge_t / 10
    } else if max_t > 10_000 {
        900_000 - 3 * max_t / 5
    } else {
        900_000
    };
    proof {
        lemma_width_scaling(lw as int, (1_000_000 + 2 * edge_t / 5) as int);
        lemma_width_scaling(lw as int, (1_000_000 - 3 * max_t / 10) as int);
    }
    let base_width: u64 = if edge_t > 10_000 {
        mul_div(lw, 1_000_000 + 2 * edge_t / 5, UNIT)
    } else if max_t > 10_000 {
        mul_div(lw, 1_000_000 - 3 * max_t / 10, UNIT)
    } else {
        lw
    };
    proof {
        lemma_width_scaling(
            base_width as int,
            (1_000_000 + 3 * (1_000_000 - scale.dash_alpha) / 10) as int,
        );
        lemma_alpha_product(base_arrow_alpha as int, scale.arrow_alpha as int);
        lemma_alpha_product(edge_alpha as int, theme.edge.color.a as int);
        lemma_width_scaling(scale.dash_pattern.1 as int, scale.dash_alpha as int);
        lemma_dist_milli_bound(x1 as int, y1 as int, x2 as int, y2 as int);
    }
    let width = mul_div(base_width, 1_000_000 + 3 * (1_000_000 - scale.dash_alpha) / 10, UNIT);
    let arrow_alpha = mul_div(base_arrow_alpha, scale.arrow_alpha, UNIT);
    let color = Color {
        r: theme.edge.color.r,
        g: theme.edge.color.g,
        b: theme.edge.color.b,
        a: mul_div(edge_alpha, theme.edge.color.a, UNIT),
    };
    let effective_gap = mul_div(scale.dash_pattern.1, scale.dash_alpha, UNIT);
    let dash: Option<(u64, u64, i64)> = if effective_gap > 100_000 {
        Some((scale.dash_pattern.0, effective_gap, dash_offset))
    } else {
        None
    };
    if theme.edge.curved && dm * 1000 > 4 * scale.node_radius {
        draw_curved_edge(
            ops,
            x1,
            y1,
            x2,
            y2,
            ux,
            uy,
            dm,
            scale.node_radius + scale.arrow_size,
            theme.edge.curve_tension,
            width,
            color,
            dash,
        );
    } else {
        ops.push(
            DrawOp::StrokeLine {
                x1: along(x1, ux, scale.node_radius),
                y1: along(y1, uy, scale.node_radius),
                x2: along(x2, -ux, scale.node_radius + scale.arrow_size),
                y2: along(y2, -uy, scale.node_radius + scale.arrow_size),
                width,
                color,
                dash,
            },
        );
    }
    if !scale.cull_arrows && arrow_alpha > 0 {
        let tip_x = along(x2, -ux, scale.node_radius);
        let tip_y = along(y2, -uy, scale.node_radius);
        proof {
            assert(-(200_000_000_000_000 as int) * 1_000_000 <= (-ux) * scale.arrow_size
                <= 200_000_000_000_000 * 1_000_000) by (nonlinear_arith)
                requires
                    -2_000_000 <= ux <= 2_000_000,
                    0 <= scale.arrow_size <= 100_000_000_000_000,
            ;
            assert(-(200_000_000_000_000 as int) * 1_000_000 <= (-uy) * scale.arrow_size
                <= 200_000_000_000_000 * 1_000_000) by (nonlinear_arith)
                requires
                    -2_000_000 <= uy <= 2_000_000,
                    0 <= scale.arrow_size <= 100_000_000_000_000,
            ;
            assert(-(100_000_000_000_000 as int) * 2_000_000 <= ux * scale.arrow_size
                <= 100_000_000_000_000 * 2_000_000) by (nonlinear_arith)
                requires
                    -2_000_000 <= ux <= 2_000_000,
                    0 <= scale.arrow_size <= 100_000_000_000_000,
            ;
            assert(-(100_000_000_000_000 as int) * 2_000_000 <= (-uy) * scale.arrow_size
                <= 100_000_000_000_000 * 2_000_000) by (nonlinear_arith)
                requires
                    -2_000_000 <= uy <= 2_000_000,
                    0 <= scale.arrow_size <= 100_000_000_000_000,
            ;
            crate::fixed::lemma_tdiv_quotient_bound(
                (-ux) * scale.arrow_size,
                1_000_000,
                200_000_000_000_000,
            );
            crate::fixed::lemma_tdiv_quotient_bound(
                (-uy) * scale.arrow_size,
                1_000_000,
                200_000_000_000_000,
            );
            crate::fixed::lemma_tdiv_quotient_bound(
                (-uy) * scale.arrow_size,
                2_000_000,
                100_000_000_000_000,
            );
            crate::fixed::lemma_tdiv_quotient_bound(
                ux * scale.arrow_size,
                2_000_000,
                100_000_000_000_000,
            );
            lemma_alpha_product(arrow_alpha as int, theme.edge.color.a as int);
        }
        let back_x = tip_x + mul_div_signed(-ux, scale.arrow_size, UNIT);
        let back_y = tip_y + mul_div_signed(-uy, scale.arrow_size, UNIT);
        let px = mul_div_signed(-uy, scale.arrow_size, 2_000_000);
        let py = mul_div_signed(ux, scale.arrow_size, 2_000_000);
        ops.push(
            DrawOp::FillTriangle {
                x1: tip_x,
                y1: tip_y,
                x2: back_x + px,
                y2: back_y + py,
                x3: back_x - px,
                y3: back_y - py,
                color: Color {
                    r: theme.edge.color.r,
                    g: theme.edge.color.g,
                    b: theme.edge.color.b,
                    a: mul_div(arrow_alpha, theme.edge.color.a, UNIT),
                },
            },
        );
    }
    proof {
        assert(final(ops)@ =~= old(ops)@ + goal);
    }
}

/// A width scaled by a near-unit micro factor stays within bounds.
proof fn lemma_width_scaling(w: int, f: int)
    requires
        0 <= w <= 400_000_000_000_000,
        0 <= f <= 2_000_000,
    ensures
        0 <= w * f / 1_000_000 <= 2 * w,
{
    vstd::arithmetic::mul::lemma_mul_inequality(f, 2_000_000, w);
    assert(f * w == w * f) by (nonlinear_arith);
    assert(2_000_000 * w == w * 2_000_000) by (nonlinear_arith);
    vstd::arithmetic::div_mod::lemma_div_is_ordered(w * f, w * 2_000_000, 1_000_000);
    assert(w * 2_000_000 == (2 * w) * 1_000_000) by (nonlinear_arith);
    vstd::arithmetic::div_mod::lemma_div_multiples_vanish(2 * w, 1_000_000);
    assert((2 * w) * 1_000_000 == 1_000_000 * (2 * w)) by (nonlinear_arith);
    vstd::arithmetic::mul::lemma_mul_nonnegative(w, f);
    vstd::arithmetic::div_mod::lemma_div_pos_is_pos(w * f, 1_000_000);
}

/// The drawn radius of a node: the resolved base radius scaled by a pass
/// multiplier, the node's own size multiplier, and the pulse.
pub open spec fn spec_draw_radius(nr: int, rm: int, size: int, pulse: int) -> int {
    nr * rm / 1_000_000 * size / 1_000_000 * (1_000_000 + pulse) / 1_000_000
}

/// The body, border and label of one node: a flat or gradient-filled
/// circle under the pass alpha, a border stroke when the theme has one,
/// and the label when the node is bright enough to carry it.
pub open spec fn spec_node_ops(
    theme: Theme,
    scale: ScaledValues,
    x: int,
    y: int,
    size: int,
    color: String,
    label: Option<String>,
    alpha: int,
    radius_mult: int,
    pulse: int,
) -> Seq<DrawOp> {
    let radius = spec_draw_radius(scale.node_radius as int, radius_mult, size, pulse);
    let base = spec_parse_color(vstd::utf8::encode_utf8(color@));
    let body = DrawOp::FillCircle {
        cx: x as i64,
        cy: y as i64,
        r: radius as u64,
        paint: if theme.node.use_gradient {
            Paint::Radial {
                x0: (x - 3 * radius / 10) as i64,
                y0: (y - 3 * radius / 10) as i64,
                r0: 0,
                x1: x as i64,
                y1: y as i64,
                r1: radius as u64,
                stops: GradientStops::Three(
                    (0u64, spec_lighten(base, 400_000)),
                    (700_000u64, base),
                    (1_000_000u64, spec_darken(base, 200_000)),
                ),
            }
        } else {
            Paint::Css(color)
        },
        alpha: alpha as u64,
    };
    let framed = if theme.node.border_width > 0 {
        seq![
            body,
            DrawOp::StrokeCircle {
                cx: x as i64,
                cy: y as i64,
                r: radius as u64,
                width: (theme.node.border_width * 1_000_000 / (scale.k as int)) as u64,
                color: theme.node.border_color,
                alpha: alpha as u64,
            },
        ]
    } else {
        seq![body]
    };
    match label {
        Option::Some(l) => if alpha > 500_000 {
            framed.push(
                DrawOp::Text {
                    text: l,
                    x: (x + radius + 4_000_000) as i64,
                    y: (y + 3_000_000) as i64,
                    size: scale.label_font_size,
                    color: Color { r: 255, g: 255, b: 255, a: 850_000 },
                    alpha: (alpha * 4 / 5) as u64,
                },
            )
        } else {
            framed
        },
        Option::None => framed,
    }
}

/// The outer glow of one node: a radial gradient from half the node
/// radius out to three node radii scaled by the glow multiplier, tinted
/// by the node color under the theme's glow saturation; skipped when the
/// resulting alpha is invisible.
pub open spec fn spec_node_glow_ops(
    theme: Theme,
    scale: ScaledValues,
    x: int,
    y: int,
    size: int,
    color: String,
    glow_mult: int,
    pulse: int,
) -> Seq<DrawOp> {
    let radius = spec_draw_radius(scale.node_radius as int, 1_000_000, size, pulse);
    let glow_radius = radius * 3 * glow_mult / 1_000_000;
    let alpha = theme.node.glow_intensity * glow_mult / 1_000_000 * 2 / 5;
    if alpha < 10_000 {
        Seq::empty()
    } else {
        let base = spec_parse_color(vstd::utf8::encode_utf8(color@));
        let glow_color = Color {
            r: base.r,
            g: base.g,
            b: base.b,
            a: (alpha * theme.node.glow_saturation / 1_000_000) as u64,
        };
        let white = Color { r: 255, g: 255, b: 255, a: (alpha * 3 / 10) as u64 };
        seq![
            DrawOp::FillCircle {
                cx: x as i64,
                cy: y as i64,
                r: glow_radius as u64,
                paint: Paint::Radial {
                    x0: x as i64,
                    y0: y as i64,
                    r0: (radius / 2) as u64,
                    x1: x as i64,
                    y1: y as i64,
                    r1: glow_radius as u64,
                    stops: GradientStops::Three(
                        (0u64, spec_lerp(white, glow_color, 500_000)),
                        (400_000u64, Color { r: glow_color.r, g: glow_color.g, b: glow_color.b, a: (alpha / 2) as u64 }),
                        (1_000_000u64, Color { r: 0, g: 0, b: 0, a: 0 }),
                    ),
                },
                alpha: 1_000_000,
            },
        ]
    }
}

/// The glow multiplier of one node in the glow pass.
pub open spec fn spec_glow_mult(s: ForceGraphState, i: int, max_t: int) -> int {
    let node_t = spec_smooth_step(s.highlight.intensity_of(i));
    let hover_t = spec_smooth_step(s.highlight.ring_of(i));
    if node_t > 1_000 {
        let neighbor_glow = 1_000_000 + 3 * node_t / 10;
        let hovered_glow = 1_500_000 + node_t / 2;
        neighbor_glow + (hovered_glow - neighbor_glow) * hover_t / 1_000_000
    } else if max_t > 10_000 {
        1_000_000 - 7 * max_t / 10
    } else {
        1_000_000
    }
}

/// The glow pass over the first `m` nodes.
pub open spec fn spec_glow_pass(
    s: ForceGraphState,
    positions: Seq<(i64, i64)>,
    scale: ScaledValues,
    theme: Theme,
    pulse: int,
    m: int,
) -> Seq<DrawOp>
    decreases m,
{
    if m <= 0 {
        Seq::empty()
    } else {
        let i = m - 1;
        let max_t = spec_smooth_step(s.highlight.cached_max as int);
        spec_glow_pass(s, positions, scale, theme, pulse, i) + spec_node_glow_ops(
            theme,
            scale,
            positions[i].0 as int,
            positions[i].1 as int,
            s.nodes[i].size as int,
            s.nodes[i].color,
            spec_glow_mult(s, i, max_t),
            pulse,
        )
    }
}

/// The plain pass over the first `m` nodes: the ones without any live
/// highlight, dimmed and slightly shrunk by the raw maximum intensity
/// while something else is lit.
pub open spec fn spec_plain_pass(
    s: ForceGraphState,
    positions: Seq<(i64, i64)>,
    scale: ScaledValues,
    theme: Theme,
    pulse: int,
    m: int,
) -> Seq<DrawOp>
    decreases m,
{
    if m <= 0 {
        Seq::empty()
    } else {
        let i = m - 1;
        let rest = spec_plain_pass(s, positions, scale, theme, pulse, i);
        if s.highlight.intensity_of(i) > 1_000 {
            rest
        } else {
            let max_t = spec_smooth_step(s.highlight.cached_max as int);
            let max_raw = s.highlight.cached_max as int;
            let alpha = if max_t > 10_000 {
                1_000_000 - 7 * max_raw / 10
            } else {
                1_000_000
            };
            let radius_mult = if max_t > 10_000 {
                1_000_000 - 3 * max_raw / 20
            } else {
                1_000_000
            };
            rest + spec_node_ops(
                theme,
                scale,
                positions[i].0 as int,
                positions[i].1 as int,
                s.nodes[i].size as int,
                s.nodes[i].color,
                s.nodes[i].label,
                alpha,
                radius_mult,
                pulse,
            )
        }
    }
}

/// The rings and label of one highlighted node, after its body.
pub open spec fn spec_highlight_extra_ops(
    s: ForceGraphState,
    scale: ScaledValues,
    i: int,
    x: int,
    y: int,
    alpha: int,
    radius_mult: int,
    pulse: int,
) -> Seq<DrawOp> {
    let ring_t = spec_smooth_step(s.highlight.ring_of(i));
    let radius = spec_draw_radius(
        scale.node_radius as int,
        radius_mult,
        s.nodes[i].size as int,
        pulse,
    );
    let rings = if ring_t > 10_000 {
        seq![
            DrawOp::StrokeCircle {
                cx: x as i64,
                cy: y as i64,
                r: (radius + scale.ring_offset) as u64,
                width: scale.ring_width,
                color: Color { r: 255, g: 255, b: 255, a: (8 * ring_t / 10) as u64 },
                alpha: 1_000_000,
            },
            DrawOp::StrokeCircle {
                cx: x as i64,
                cy: y as i64,
                r: (radius + scale.ring_offset * 5 / 2) as u64,
                width: (scale.ring_width / 2) as u64,
                color: Color { r: 255, g: 255, b: 255, a: (3 * ring_t / 10) as u64 },
                alpha: 1_000_000,
            },
        ]
    } else {
        Seq::empty()
    };
    match s.nodes[i].label {
        Option::Some(l) => rings.push(
            DrawOp::Text {
                text: l,
                x: (x + radius + 4_000_000) as i64,
                y: (y + 3_000_000) as i64,
                size: scale.label_font_size,
                color: Color { r: 255, g: 255, b: 255, a: (19 * alpha / 20) as u64 },
                alpha: 1_000_000,
            },
        ),
        Option::None => rings,
    }
}

/// The highlight pass over the first `m` nodes: the lit ones, drawn last
/// and on top, swelling with eased intensity toward the neighbour or
/// hovered boost, ringed while the hover ring shows.
pub open spec fn spec_highlight_pass(
    s: ForceGraphState,
    positions: Seq<(i64, i64)>,
    scale: ScaledValues,
    theme: Theme,
    pulse: int,
    m: int,
) -> Seq<DrawOp>
    decreases m,
{
    if m <= 0 {
        Seq::empty()
    } else {
        let i = m - 1;
        let rest = spec_highlight_pass(s, positions, scale, theme, pulse, i);
        if s.highlight.intensity_of(i) <= 1_000 {
            rest
        } else {
            let max_t = spec_smooth_step(s.highlight.cached_max as int);
            let max_raw = s.highlight.cached_max as int;
            let has_highlight = max_t > 10_000;
            let eased = spec_smooth_step(s.highlight.intensity_of(i));
            let hover_t = spec_smooth_step(s.highlight.ring_of(i));
            let dim_alpha = if has_highlight {
                1_000_000 - 7 * max_raw / 10
            } else {
                1_000_000
            };
            let dim_radius = if has_highlight {
                1_000_000 - 3 * max_raw / 20
            } else {
                1_000_000
            };
            let neighbor_radius = 1_000_000 + eased / 4;
            let hovered_radius = 1_000_000 + 2 * eased / 5;
            let highlight_radius = neighbor_radius + (hovered_radius - neighbor_radius) * hover_t
                / 1_000_000;
            let alpha = dim_alpha + (1_000_000 - dim_alpha) * eased / 1_000_000;
            let radius_mult = dim_radius + (highlight_radius - dim_radius) * eased / 1_000_000;
            rest + spec_node_ops(
                theme,
                scale,
                positions[i].0 as int,
                positions[i].1 as int,
                s.nodes[i].size as int,
                s.nodes[i].color,
                s.nodes[i].label,
                alpha,
                radius_mult,
                pulse,
            ) + spec_highlight_extra_ops(
                s,
                scale,
                i,
                positions[i].0 as int,
                positions[i].1 as int,
                alpha,
                radius_mult,
                pulse,
            )
        }
    }
}

/// The drawn radius of a node, within working bounds.
fn draw_radius(nr: u64, rm: u64, size: u64, pulse: i64) -> (r: u64)
    requires
        nr <= 100_000_000_000_000,
        rm <= 2_000_000,
        size <= 10_000_000,
        -1_000_000 <= pulse <= 1_000_000,
    ensures
        r == spec_draw_radius(nr as int, rm as int, size as int, pulse as int),
        r <= 4_000_000_000_000_000,
{
    proof {
        crate::fixed::lemma_mul_div_bound(
            nr as int,
            rm as int,
            100_000_000_000_000,
            2_000_000,
            1_000_000,
        );
        assert(100_000_000_000_000 * 2_000_000 / 1_000_000 == 200_000_000_000_000)
            by (nonlinear_arith);
    }
    let r1 = mul_div(nr, rm, UNIT);
    proof {
        crate::fixed::lemma_mul_div_bound(
            r1 as int,
            size as int,
            200_000_000_000_000,
            10_000_000,
            1_000_000,
        );
        assert(200_000_000_000_000 * 10_000_000 / 1_000_000 == 2_000_000_000_000_000)
            by (nonlinear_arith);
    }
    let r2 = mul_div(r1, size, UNIT);
    let pf = (crate::fixed::UNIT_I + pulse) as u64;
    proof {
        crate::fixed::lemma_mul_div_bound(
            r2 as int,
            pf as int,
            2_000_000_000_000_000,
            2_000_000,
            1_000_000,
        );
        assert(2_000_000_000_000_000 * 2_000_000 / 1_000_000 == 4_000_000_000_000_000)
            by (nonlinear_arith);
    }
    mul_div(r2, pf, UNIT)
}

/// Append the body, border and label of one node.
fn draw_node(
    ops: &mut Vec<DrawOp>,
    scale: &ScaledValues,
    theme: &Theme,
    x: i64,
    y: i64,
    size: u64,
    color: &String,
    label: &Option<String>,
    alpha: u64,
    radius_mult: u64,
    pulse: i64,
)
    requires
        scale_ok(*scale),
        theme.wf(),
        coord_ok(x as int),
        coord_ok(y as int),
        size <= 10_000_000,
        alpha <= UNIT,
        radius_mult <= 2_000_000,
        -1_000_000 <= pulse <= 1_000_000,
    ensures
        final(ops)@ == old(ops)@ + spec_node_ops(
            *theme,
            *scale,
            x as int,
            y as int,
            size as int,
            *color,
            *label,
            alpha as int,
            radius_mult as int,
            pulse as int,
        ),
{
    let radius = draw_radius(scale.node_radius, radius_mult, size, pulse);
    let paint = if theme.node.use_gradient {
        let base = parse_color(color.as_str());
        let highlight = base.lighten(400_000);
        let shadow = base.darken(200_000);
        proof {
            assert(highlight == spec_lighten(base, 400_000));
            assert(shadow == spec_darken(base, 200_000));
            vstd::arithmetic::mul::lemma_mul_nonnegative(3, radius as int);
            vstd::arithmetic::div_mod::lemma_div_pos_is_pos(3 * radius, 10);
            vstd::arithmetic::div_mod::lemma_div_is_ordered(
                3 * radius,
                (3 * 4_000_000_000_000_000) as int,
                10,
            );
            assert((3 * 4_000_000_000_000_000) as int / 10 == 1_200_000_000_000_000)
                by (nonlinear_arith);
        }
        let off = (3 * radius) / 10;
        Paint::Radial {
            x0: x - (off as i64),
            y0: y - (off as i64),
            r0: 0,
            x1: x,
            y1: y,
            r1: radius,
            stops: GradientStops::Three(
                (0, highlight),
                (700_000, base),
                (1_000_000, shadow),
            ),
        }
    } else {
        Paint::Css(color.clone())
    };
    ops.push(DrawOp::FillCircle { cx: x, cy: y, r: radius, paint, alpha });
    if theme.node.border_width > 0 {
        proof {
            crate::state::lemma_screen_quotient_bound(
                theme.node.border_width as int,
                scale.k as int,
            );
        }
        ops.push(
            DrawOp::StrokeCircle {
                cx: x,
                cy: y,
                r: radius,
                width: mul_div(theme.node.border_width, UNIT, scale.k),
                color: theme.node.border_color,
                alpha,
            },
        );
    }
    match label {
        Some(l) => {
            if alpha > 500_000 {
                proof {
                    vstd::arithmetic::mul::lemma_mul_nonnegative(alpha as int, 4);
                    vstd::arithmetic::div_mod::lemma_div_pos_is_pos(alpha * 4, 5);
                    vstd::arithmetic::div_mod::lemma_div_is_ordered(
                        alpha * 4,
                        (1_000_000 * 4) as int,
                        5,
                    );
                    assert((1_000_000 * 4) as int / 5 == 800_000) by (nonlinear_arith);
                }
                ops.push(
                    DrawOp::Text {
                        text: l.clone(),
                        x: x + (radius as i64) + 4_000_000,
                        y: y + 3_000_000,
                        size: scale.label_font_size,
                        color: Color { r: 255, g: 255, b: 255, a: 850_000 },
                        alpha: (alpha * 4) / 5,
                    },
                );
            }
        },
        None => {},
    }
    proof {
        assert(final(ops)@ =~= old(ops)@ + spec_node_ops(
            *theme,
            *scale,
            x as int,
            y as int,
            size as int,
            *color,
            *label,
            alpha as int,
            radius_mult as int,
            pulse as int,
        ));
    }
}

/// Append the outer glow of one node, if it shows.
fn draw_node_glow(
    ops: &mut Vec<DrawOp>,
    scale: &ScaledValues,
    theme: &Theme,
    x: i64,
    y: i64,
    size: u64,
    color: &String,
    glow_mult: u64,
    pulse: i64,
)
    requires
        scale_ok(*scale),
        theme.wf(),
        coord_ok(x as int),
        coord_ok(y as int),
        size <= 10_000_000,
        glow_mult <= 2_000_000,
        -1_000_000 <= pulse <= 1_000_000,
    ensures
        final(ops)@ == old(ops)@ + spec_node_glow_ops(
            *theme,
            *scale,
            x as int,
            y as int,
            size as int,
            *color,
            glow_mult as int,
            pulse as int,
        ),
{
    let radius = draw_radius(scale.node_radius, UNIT, size, pulse);
    proof {
        vstd::arithmetic::mul::lemma_mul_nonnegative(radius as int, 3);
        crate::fixed::lemma_mul_div_bound(
            (radius * 3) as int,
            glow_mult as int,
            12_000_000_000_000_000,
            2_000_000,
            1_000_000,
        );
        assert(12_000_000_000_000_000 * 2_000_000 / 1_000_000 == 24_000_000_000_000_000)
            by (nonlinear_arith);
        crate::fixed::lemma_mul_div_bound(
            theme.node.glow_intensity as int,
            glow_mult as int,
            1_000_000,
            2_000_000,
            1_000_000,
        );
        assert(1_000_000 * 2_000_000 / 1_000_000 == 2_000_000) by (nonlinear_arith);
    }
    let glow_radius = mul_div(radius * 3, glow_mult, UNIT);
    let a1 = mul_div(theme.node.glow_intensity, glow_mult, UNIT);
    proof {
        vstd::arithmetic::mul::lemma_mul_nonnegative(a1 as int, 2);
        vstd::arithmetic::div_mod::lemma_div_pos_is_pos(a1 * 2, 5);
        vstd::arithmetic::div_mod::lemma_div_is_ordered(a1 * 2, (2_000_000 * 2) as int, 5);
        assert((2_000_000 * 2) as int / 5 == 800_000) by (nonlinear_arith);
    }
    let alpha = (a1 * 2) / 5;
    if alpha < 10_000 {
        proof {
            assert(final(ops)@ =~= old(ops)@ + spec_node_glow_ops(
                *theme,
                *scale,
                x as int,
                y as int,
                size as int,
                *color,
                glow_mult as int,
                pulse as int,
            ));
        }
        return ;
    }
    let base = parse_color(color.as_str());
    proof {
        lemma_alpha_product(alpha as int, theme.node.glow_saturation as int);
        vstd::arithmetic::mul::lemma_mul_nonnegative(alpha as int, 3);
        vstd::arithmetic::div_mod::lemma_div_pos_is_pos(alpha * 3, 10);
        vstd::arithmetic::div_mod::lemma_div_is_ordered(alpha * 3, (800_000 * 3) as int, 10);
        assert((800_000 * 3) as int / 10 == 240_000) by (nonlinear_arith);
    }
    let glow_color = Color {
        r: base.r,
        g: base.g,
        b: base.b,
        a: mul_div(alpha, theme.node.glow_saturation, UNIT),
    };
    let white = Color { r: 255, g: 255, b: 255, a: (alpha * 3) / 10 };
    let lerped = white.lerp(glow_color, 500_000);
    proof {
        assert(lerped == spec_lerp(white, glow_color, 500_000));
    }
    ops.push(
        DrawOp::FillCircle {
            cx: x,
            cy: y,
            r: glow_radius,
            paint: Paint::Radial {
                x0: x,
                y0: y,
                r0: radius / 2,
                x1: x,
                y1: y,
                r1: glow_radius,
                stops: GradientStops::Three(
                    (0, lerped),
                    (400_000, Color { r: glow_color.r, g: glow_color.g, b: glow_color.b, a: alpha / 2 }),
                    (1_000_000, Color { r: 0, g: 0, b: 0, a: 0 }),
                ),
            },
            alpha: 1_000_000,
        },
    );
    proof {
        assert(final(ops)@ =~= old(ops)@ + spec_node_glow_ops(
            *theme,
            *scale,
            x as int,
            y as int,
            size as int,
            *color,
            glow_mult as int,
            pulse as int,
        ));
    }
}

/// The glow pass over the first `m` edges.
pub open spec fn spec_edge_glow_pass(
    s: ForceGraphState,
    positions: Seq<(i64, i64)>,
    scale: ScaledValues,
    theme: Theme,
    m: int,
) -> Seq<DrawOp>
    decreases m,
{
    if m <= 0 {
        Seq::empty()
    } else {
        let e = s.edges[m - 1];
        spec_edge_glow_pass(s, positions, scale, theme, m - 1) + spec_edge_glow_ops(
            theme,
            scale,
            positions[e.0 as int].0 as int,
            positions[e.0 as int].1 as int,
            positions[e.1 as int].0 as int,
            positions[e.1 as int].1 as int,
            spec_isqrt(
                s.highlight.intensity_of(e.0 as int) * s.highlight.intensity_of(e.1 as int),
            ),
            s.highlight.cached_max as int,
        )
    }
}

/// The main pass over the first `m` edges.
pub open spec fn spec_edge_main_pass(
    s: ForceGraphState,
    positions: Seq<(i64, i64)>,
    scale: ScaledValues,
    theme: Theme,
    dash_offset: int,
    m: int,
) -> Seq<DrawOp>
    decreases m,
{
    if m <= 0 {
        Seq::empty()
    } else {
        let e = s.edges[m - 1];
        spec_edge_main_pass(s, positions, scale, theme, dash_offset, m - 1) + spec_edge_main_ops(
            theme,
            scale,
            positions[e.0 as int].0 as int,
            positions[e.0 as int].1 as int,
            positions[e.1 as int].0 as int,
            positions[e.1 as int].1 as int,
            spec_isqrt(
                s.highlight.intensity_of(e.0 as int) * s.highlight.intensity_of(e.1 as int),
            ),
            s.highlight.cached_max as int,
            dash_offset,
        )
    }
}

/// Draw the edges: the glow pass (when the theme glows at all), then the
/// main pass with the flow-animated dashes.
fn draw_edges(
    ops: &mut Vec<DrawOp>,
    state: &ForceGraphState,
    positions: &Vec<(i64, i64)>,
    config: &ScaleConfig,
    scale: &ScaledValues,
    theme: &Theme,
)
    requires
        state.wf(),
        config.wf(),
        scale_ok(*scale),
        theme.wf(),
        positions.len() == state.nodes.len(),
        crate::state::coords_ok(positions@),
    ensures
        final(ops)@ == old(ops)@ + (if theme.edge.glow_intensity > 0 {
            spec_edge_glow_pass(*state, positions@, *scale, *theme, state.edges.len() as int)
        } else {
            Seq::<DrawOp>::empty()
        }) + spec_edge_main_pass(
            *state,
            positions@,
            *scale,
            *theme,
            -(state.flow_time * config.edge.flow_speed / 1_000_000),
            state.edges.len() as int,
        ),
{
    proof {
        crate::fixed::lemma_mul_div_bound(
            state.flow_time as int,
            config.edge.flow_speed as int,
            1_000_000_000_000,
            1_000_000_000_000,
            1_000_000,
        );
        assert(1_000_000_000_000 * 1_000_000_000_000 / 1_000_000 == 1_000_000_000_000_000_000)
            by (nonlinear_arith);
    }
    let dash_offset = scale.dash_offset(state.flow_time, config.edge.flow_speed);
    let m = state.edges.len();
    if theme.edge.glow_intensity > 0 {
        let mut i: usize = 0;
        while i < m
            invariant
                i <= m,
                m == state.edges.len(),
                state.wf(),
                scale_ok(*scale),
                theme.wf(),
                positions.len() == state.nodes.len(),
                crate::state::coords_ok(positions@),
                ops@ == old(ops)@ + spec_edge_glow_pass(
                    *state,
                    positions@,
                    *scale,
                    *theme,
                    i as int,
                ),
            decreases m - i,
        {
            let e = state.edges[i];
            let p1 = positions[e.0];
            let p2 = positions[e.1];
            let ea = state.highlight.edge_intensity(e.0, e.1);
            let maxi = state.highlight.max_intensity();
            draw_edge_glow(ops, scale, theme, p1.0, p1.1, p2.0, p2.1, ea, maxi);
            i += 1;
        }
    }
    let ghost mid = ops@;
    let mut i: usize = 0;
    while i < m
        invariant
            i <= m,
            m == state.edges.len(),
            state.wf(),
            scale_ok(*scale),
            theme.wf(),
            positions.len() == state.nodes.len(),
            crate::state::coords_ok(positions@),
            dash_offset == -(state.flow_time * config.edge.flow_speed / 1_000_000),
            ops@ == mid + spec_edge_main_pass(
                *state,
                positions@,
                *scale,
                *theme,
                dash_offset as int,
                i as int,
            ),
        decreases m - i,
    {
        let e = state.edges[i];
        let p1 = positions[e.0];
        let p2 = positions[e.1];
        let ea = state.highlight.edge_intensity(e.0, e.1);
        let maxi = state.highlight.max_intensity();
        draw_edge_main(ops, scale, theme, p1.0, p1.1, p2.0, p2.1, ea, maxi, dash_offset);
        i += 1;
    }
    proof {
        assert(final(ops)@ =~= old(ops)@ + (if theme.edge.glow_intensity > 0 {
            spec_edge_glow_pass(*state, positions@, *scale, *theme, state.edges.len() as int)
        } else {
            Seq::<DrawOp>::empty()
        }) + spec_edge_main_pass(
            *state,
            positions@,
            *scale,
            *theme,
            -(state.flow_time * config.edge.flow_speed / 1_000_000),
            state.edges.len() as int,
        ));
    }
}

/// Append the glow of the node at slot `i` in the glow pass.
fn glow_pass_item(
    ops: &mut Vec<DrawOp>,
    state: &ForceGraphState,
    positions: &Vec<(i64, i64)>,
    scale: &ScaledValues,
    theme: &Theme,
    pulse: i64,
    max_t: u64,
    i: usize,
)
    requires
        state.wf(),
        scale_ok(*scale),
        theme.wf(),
        positions.len() == state.nodes.len(),
        crate::state::coords_ok(positions@),
        -1_000_000 <= pulse <= 1_000_000,
        max_t == spec_smooth_step(state.highlight.cached_max as int),
        max_t <= UNIT,
        i < state.nodes.len(),
    ensures
        final(ops)@ == old(ops)@ + spec_node_glow_ops(
            *theme,
            *scale,
            positions[i as int].0 as int,
            positions[i as int].1 as int,
            state.nodes[i as int].size as int,
            state.nodes[i as int].color,
            spec_glow_mult(*state, i as int, max_t as int),
            pulse as int,
        ),
{
    let node_t = smooth_step(state.highlight.node_intensity(i));
    let hover_t = smooth_step(state.highlight.hover_ring_intensity(i));
    let glow_mult: u64 = if node_t > 1_000 {
        proof {
            vstd::arithmetic::mul::lemma_mul_nonnegative(3, node_t as int);
            vstd::arithmetic::div_mod::lemma_div_pos_is_pos(3 * node_t, 10);
            vstd::arithmetic::div_mod::lemma_div_is_ordered(
                3 * node_t,
                (3 * 1_000_000) as int,
                10,
            );
            assert((3 * 1_000_000) as int / 10 == 300_000) by (nonlinear_arith);
            vstd::arithmetic::div_mod::lemma_div_pos_is_pos(node_t as int, 2);
            vstd::arithmetic::div_mod::lemma_div_is_ordered(node_t as int, 1_000_000, 2);
        }
        let ng = 1_000_000 + (3 * node_t) / 10;
        let hg = 1_500_000 + node_t / 2;
        proof {
            lemma_alpha_product((hg - ng) as int, hover_t as int);
        }
        ng + mul_div(hg - ng, hover_t, UNIT)
    } else if max_t > 10_000 {
        proof {
            vstd::arithmetic::mul::lemma_mul_nonnegative(7, max_t as int);
            vstd::arithmetic::div_mod::lemma_div_pos_is_pos(7 * max_t, 10);
            vstd::arithmetic::div_mod::lemma_div_is_ordered(
                7 * max_t,
                (7 * 1_000_000) as int,
                10,
            );
            assert((7 * 1_000_000) as int / 10 == 700_000) by (nonlinear_arith);
        }
        1_000_000 - (7 * max_t) / 10
    } else {
        UNIT
    };
    proof {
        assert(glow_mult == spec_glow_mult(*state, i as int, max_t as int));
    }
    let p = positions[i];
    draw_node_glow(
        ops,
        scale,
        theme,
        p.0,
        p.1,
        state.nodes[i].size,
        &state.nodes[i].color,
        glow_mult,
        pulse,
    );
}

/// Draw the nodes in three passes: glows, the plain nodes, then the
/// highlighted nodes on top with their rings and labels.
#[verifier::rlimit(100)]
fn draw_nodes(
    ops: &mut Vec<DrawOp>,
    state: &ForceGraphState,
    positions: &Vec<(i64, i64)>,
    scale: &ScaledValues,
    theme: &Theme,
    pulse: i64,
)
    requires
        state.wf(),
        scale_ok(*scale),
        theme.wf(),
        positions.len() == state.nodes.len(),
        crate::state::coords_ok(positions@),
        -1_000_000 <= pulse <= 1_000_000,
    ensures
        final(ops)@ == old(ops)@ + (if theme.node.glow_intensity > 0 {
            spec_glow_pass(*state, positions@, *scale, *theme, pulse as int, state.nodes.len() as int)
        } else {
            Seq::<DrawOp>::empty()
        }) + spec_plain_pass(
            *state,
            positions@,
            *scale,
            *theme,
            pulse as int,
            state.nodes.len() as int,
        ) + spec_highlight_pass(
            *state,
            positions@,
            *scale,
            *theme,
            pulse as int,
            state.nodes.len() as int,
        ),
{
    let n = state.nodes.len();
    let max_raw = state.highlight.max_intensity();
    let max_t = smooth_step(max_raw);
    let has_highlight = max_t > 10_000;

    if theme.node.glow_intensity > 0 {
        let mut i: usize = 0;
        while i < n
            invariant
                i <= n,
                n == state.nodes.len(),
                state.wf(),
                scale_ok(*scale),
                theme.wf(),
                positions.len() == n,
                crate::state::coords_ok(positions@),
                -1_000_000 <= pulse <= 1_000_000,
                max_t == spec_smooth_step(state.highlight.cached_max as int),
                max_t <= UNIT,
                ops@ == old(ops)@ + spec_glow_pass(
                    *state,
                    positions@,
                    *scale,
                    *theme,
                    pulse as int,
                    i as int,
                ),
            decreases n - i,
        {
            glow_pass_item(ops, state, positions, scale, theme, pulse, max_t, i);
            i += 1;
        }
    }
    let ghost after_glow = ops@;

    let mut i: usize = 0;
    while i < n
        invariant
            i <= n,
            n == state.nodes.len(),
            state.wf(),
            scale_ok(*scale),
            theme.wf(),
            positions.len() == n,
            crate::state::coords_ok(positions@),
            -1_000_000 <= pulse <= 1_000_000,
            max_t == spec_smooth_step(state.highlight.cached_max as int),
            max_t <= UNIT,
            max_raw == state.highlight.cached_max,
            max_raw <= UNIT,
            has_highlight == (max_t > 10_000),
            ops@ == after_glow + spec_plain_pass(
                *state,
                positions@,
                *scale,
                *theme,
                pulse as int,
                i as int,
            ),
        decreases n - i,
    {
        let node_t = state.highlight.node_intensity(i);
        if node_t <= 1_000 {
            proof {
                vstd::arithmetic::mul::lemma_mul_nonnegative(7, max_raw as int);
                vstd::arithmetic::div_mod::lemma_div_pos_is_pos(7 * max_raw, 10);
                vstd::arithmetic::div_mod::lemma_div_is_ordered(
                    7 * max_raw,
                    (7 * 1_000_000) as int,
                    10,
                );
                assert((7 * 1_000_000) as int / 10 == 700_000) by (nonlinear_arith);
                vstd::arithmetic::mul::lemma_mul_nonnegative(3, max_raw as int);
                vstd::arithmetic::div_mod::lemma_div_pos_is_pos(3 * max_raw, 20);
                vstd::arithmetic::div_mod::lemma_div_is_ordered(
                    3 * max_raw,
                    (3 * 1_000_000) as int,
                    20,
                );
                assert((3 * 1_000_000) as int / 20 == 150_000) by (nonlinear_arith);
            }
            let (alpha, radius_mult) = if has_highlight {
                (1_000_000 - (7 * max_raw) / 10, 1_000_000 - (3 * max_raw) / 20)
            } else {
                (UNIT, UNIT)
            };
            let p = positions[i];
            draw_node(
                ops,
                scale,
                theme,
                p.0,
                p.1,
                state.nodes[i].size,
                &state.nodes[i].color,
                &state.nodes[i].label,
                alpha,
                radius_mult,
                pulse,
            );
        }
        i += 1;
    }
    let ghost after_plain = ops@;

    let mut i: usize = 0;
    while i < n
        invariant
            i <= n,
            n == state.nodes.len(),
            state.wf(),
            scale_ok(*scale),
            theme.wf(),
            positions.len() == n,
            crate::state::coords_ok(positions@),
            -1_000_000 <= pulse <= 1_000_000,
            max_t == spec_smooth_step(state.highlight.cached_max as int),
            max_t <= UNIT,
            max_raw == state.highlight.cached_max,
            max_raw <= UNIT,
            has_highlight == (max_t > 10_000),
            ops@ == after_plain + spec_highlight_pass(
                *state,
                positions@,
                *scale,
                *theme,
                pulse as int,
                i as int,
            ),
        decreases n - i,
    {
        let node_t = state.highlight.node_intensity(i);
        if node_t > 1_000 {
            let eased = smooth_step(node_t);
            let ring_raw = state.highlight.hover_ring_intensity(i);
            let hover_t = smooth_step(ring_raw);
            proof {
                vstd::arithmetic::mul::lemma_mul_nonnegative(7, max_raw as int);
                vstd::arithmetic::div_mod::lemma_div_pos_is_pos(7 * max_raw, 10);
                vstd::arithmetic::div_mod::lemma_div_is_ordered(
                    7 * max_raw,
                    (7 * 1_000_000) as int,
                    10,
                );
                assert((7 * 1_000_000) as int / 10 == 700_000) by (nonlinear_arith);
                vstd::arithmetic::mul::lemma_mul_nonnegative(3, max_raw as int);
                vstd::arithmetic::div_mod::lemma_div_pos_is_pos(3 * max_raw, 20);
                vstd::arithmetic::div_mod::lemma_div_is_ordered(
                    3 * max_raw,
                    (3 * 1_000_000) as int,
                    20,
                );
                assert((3 * 1_000_000) as int / 20 == 150_000) by (nonlinear_arith);
                vstd::arithmetic::div_mod::lemma_div_pos_is_pos(eased as int, 4);
                vstd::arithmetic::div_mod::lemma_div_is_ordered(eased as int, 1_000_000, 4);
                vstd::arithmetic::mul::lemma_mul_nonnegative(2, eased as int);
                vstd::arithmetic::div_mod::lemma_div_pos_is_pos(2 * eased, 5);
                vstd::arithmetic::div_mod::lemma_div_is_ordered(
                    2 * eased,
                    (2 * 1_000_000) as int,
                    5,
                );
                assert((2 * 1_000_000) as int / 5 == 400_000) by (nonlinear_arith);
            }
            let dim_alpha: u64 = if has_highlight {
                1_000_000 - (7 * max_raw) / 10
            } else {
                UNIT
            };
            let dim_radius: u64 = if has_highlight {
                1_000_000 - (3 * max_raw) / 20
            } else {
                UNIT
            };
            let neighbor_radius = 1_000_000 + eased / 4;
            let hovered_radius = 1_000_000 + (2 * eased) / 5;
            proof {
                lemma_ramp_gap(neighbor_radius as int, hovered_radius as int, hover_t as int);
            }
            let highlight_radius = neighbor_radius + mul_div(
                hovered_radius - neighbor_radius,
                hover_t,
                UNIT,
            );
            proof {
                lemma_ramp_gap(dim_alpha as int, 1_000_000, eased as int);
                lemma_ramp_gap(dim_radius as int, highlight_radius as int, eased as int);
            }
            let alpha = dim_alpha + mul_div(UNIT - dim_alpha, eased, UNIT);
            let radius_mult = dim_radius + mul_div(highlight_radius - dim_radius, eased, UNIT);
            let p = positions[i];
            draw_node(
                ops,
                scale,
                theme,
                p.0,
                p.1,
                state.nodes[i].size,
                &state.nodes[i].color,
                &state.nodes[i].label,
                alpha,
                radius_mult,
                pulse,
            );
            let ring_t = smooth_step(ring_raw);
            let radius = draw_radius(scale.node_radius, radius_mult, state.nodes[i].size, pulse);
            if ring_t > 10_000 {
                proof {
                    vstd::arithmetic::mul::lemma_mul_nonnegative(8, ring_t as int);
                    vstd::arithmetic::div_mod::lemma_div_pos_is_pos(8 * ring_t, 10);
                    vstd::arithmetic::div_mod::lemma_div_is_ordered(
                        8 * ring_t,
                        (8 * 1_000_000) as int,
                        10,
                    );
                    assert((8 * 1_000_000) as int / 10 == 800_000) by (nonlinear_arith);
                    vstd::arithmetic::mul::lemma_mul_nonnegative(3, ring_t as int);
                    vstd::arithmetic::div_mod::lemma_div_pos_is_pos(3 * ring_t, 10);
                    vstd::arithmetic::div_mod::lemma_div_is_ordered(
                        3 * ring_t,
                        (3 * 1_000_000) as int,
                        10,
                    );
                    assert((3 * 1_000_000) as int / 10 == 300_000) by (nonlinear_arith);
                }
                ops.push(
                    DrawOp::StrokeCircle {
                        cx: p.0,
                        cy: p.1,
                        r: radius + scale.ring_offset,
                        width: scale.ring_width,
                        color: Color { r: 255, g: 255, b: 255, a: (8 * ring_t) / 10 },
                        alpha: 1_000_000,
                    },
                );
                ops.push(
                    DrawOp::StrokeCircle {
                        cx: p.0,
                        cy: p.1,
                        r: radius + (scale.ring_offset * 5) / 2,
                        width: scale.ring_width / 2,
                        color: Color { r: 255, g: 255, b: 255, a: (3 * ring_t) / 10 },
                        alpha: 1_000_000,
                    },
                );
            }
            match &state.nodes[i].label {
                Some(l) => {
                    proof {
                        vstd::arithmetic::mul::lemma_mul_nonnegative(19, alpha as int);
                        vstd::arithmetic::div_mod::lemma_div_pos_is_pos(19 * alpha, 20);
                        vstd::arithmetic::div_mod::lemma_div_is_ordered(
                            19 * alpha,
                            (19 * 1_000_000) as int,
                            20,
                        );
                        assert((19 * 1_000_000) as int / 20 == 950_000) by (nonlinear_arith);
                    }
                    ops.push(
                        DrawOp::Text {
                            text: l.clone(),
                            x: p.0 + (radius as i64) + 4_000_000,
                            y: p.1 + 3_000_000,
                            size: scale.label_font_size,
                            color: Color { r: 255, g: 255, b: 255, a: (19 * alpha) / 20 },
                            alpha: 1_000_000,
                        },
                    );
                },
                None => {},
            }
            proof {
                assert(ops@ =~= after_plain + spec_highlight_pass(
                    *state,
                    positions@,
                    *scale,
                    *theme,
                    pulse as int,
                    i + 1,
                ));
            }
        }
        i += 1;
    }
    proof {
        assert(final(ops)@ =~= old(ops)@ + (if theme.node.glow_intensity > 0 {
            spec_glow_pass(*state, positions@, *scale, *theme, pulse as int, n as int)
        } else {
            Seq::<DrawOp>::empty()
        }) + spec_plain_pass(*state, positions@, *scale, *theme, pulse as int, n as int)
            + spec_highlight_pass(*state, positions@, *scale, *theme, pulse as int, n as int));
    }
}

/// A ramped blend from `lo` toward `hi` stays between them.
proof fn lemma_ramp_gap(lo: int, hi: int, t: int)
    requires
        0 <= lo <= hi <= 4_000_000,
        0 <= t <= 1_000_000,
    ensures
        0 <= (hi - lo) * t / 1_000_000 <= hi - lo,
{
    vstd::arithmetic::mul::lemma_mul_inequality(t, 1_000_000, hi - lo);
    assert(t * (hi - lo) == (hi - lo) * t) by (nonlinear_arith);
    assert(1_000_000 * (hi - lo) == (hi - lo) * 1_000_000) by (nonlinear_arith);
    vstd::arithmetic::div_mod::lemma_div_is_ordered(
        (hi - lo) * t,
        (hi - lo) * 1_000_000,
        1_000_000,
    );
    vstd::arithmetic::div_mod::lemma_div_multiples_vanish(hi - lo, 1_000_000);
    vstd::arithmetic::mul::lemma_mul_nonnegative(hi - lo, t);
    vstd::arithmetic::div_mod::lemma_div_pos_is_pos((hi - lo) * t, 1_000_000);
}

/// The operations of one full frame, in their z-order: background,
/// particles in screen space, the world transform, edge glows, edge
/// lines, node glows, plain nodes, highlighted nodes, the inverse
/// transform and the vignette. The order of this sequence is the only
/// source of occlusion correctness.
pub open spec fn spec_frame_ops(
    s: ForceGraphState,
    positions: Seq<(i64, i64)>,
    config: ScaleConfig,
    theme: Theme,
    ps: Seq<crate::particles::Particle>,
    sins: Seq<i64>,
    pulse_sin: int,
) -> Seq<DrawOp> {
    let scale = crate::scale::spec_scaled_values(config, s.transform.k as int);
    let dash_offset = -(s.flow_time * config.edge.flow_speed / 1_000_000);
    let pulse = if theme.node.pulse_intensity > 0 {
        tdiv(pulse_sin * theme.node.pulse_intensity, 1_000_000)
    } else {
        0
    };
    seq![spec_background_op(s.width as int, s.height as int, theme)] + spec_particle_ops(
        theme,
        ps,
        sins,
        ps.len() as int,
    ) + seq![DrawOp::PushTransform { x: s.transform.x, y: s.transform.y, k: s.transform.k }] + (
    if theme.edge.glow_intensity > 0 {
        spec_edge_glow_pass(s, positions, scale, theme, s.edges.len() as int)
    } else {
        Seq::<DrawOp>::empty()
    }) + spec_edge_main_pass(s, positions, scale, theme, dash_offset, s.edges.len() as int) + (
    if theme.node.glow_intensity > 0 {
        spec_glow_pass(s, positions, scale, theme, pulse, s.nodes.len() as int)
    } else {
        Seq::<DrawOp>::empty()
    }) + spec_plain_pass(s, positions, scale, theme, pulse, s.nodes.len() as int)
        + spec_highlight_pass(s, positions, scale, theme, pulse, s.nodes.len() as int) + seq![
        DrawOp::PopTransform,
    ] + spec_vignette_ops(s.width as int, s.height as int, theme)
}

/// Resolved scale values sit within their working bounds at any working
/// zoom.
pub proof fn lemma_resolved_scale_ok(config: ScaleConfig, k: int)
    requires
        config.wf(),
        100_000 <= k <= 10_000_000,
    ensures
        scale_ok(crate::scale::spec_scaled_values(config, k)),
{
    crate::state::lemma_scaled_size_bound(config.node.radius_behavior, config.node.radius as int, k);
    crate::state::lemma_scaled_size_bound(
        config.node.hit_behavior,
        config.node.hit_radius as int,
        k,
    );
    crate::state::lemma_scaled_size_bound(config.arrow.size_behavior, config.arrow.size as int, k);
    crate::state::lemma_screen_quotient_bound(config.edge.line_width as int, k);
    crate::state::lemma_screen_quotient_bound(config.glow.ring_width as int, k);
    crate::state::lemma_screen_quotient_bound(config.glow.ring_offset as int, k);
    let lk = crate::scale::spec_label_k(config, k);
    crate::state::lemma_screen_quotient_bound(config.node.label_size as int, lk);
}

/// Render one frame: the complete, ordered draw-op sequence of the
/// graph under its current transform, highlight state and theme. The
/// caller supplies the layout engine's node positions, the sine of each
/// particle's twinkle argument and the sine of the pulse argument, all
/// in micro-units.
#[verifier::rlimit(100)]
pub fn render(
    state: &ForceGraphState,
    positions: &Vec<(i64, i64)>,
    config: &ScaleConfig,
    theme: &Theme,
    particles: Option<&ParticleSystem>,
    twinkle_sins: &Vec<i64>,
    pulse_sin: i64,
) -> (ops: Vec<DrawOp>)
    requires
        state.wf(),
        config.wf(),
        theme.wf(),
        positions.len() == state.nodes.len(),
        crate::state::coords_ok(positions@),
        match particles {
            Option::Some(ps) => ps.wf() && twinkle_sins.len() == ps.particles.len(),
            Option::None => true,
        },
        forall|i: int|
            0 <= i < twinkle_sins.len() ==> -1_000_000 <= #[trigger] twinkle_sins[i] <= 1_000_000,
        -1_000_000 <= pulse_sin <= 1_000_000,
    ensures
        ops@ == spec_frame_ops(
            *state,
            positions@,
            *config,
            *theme,
            match particles {
                Option::Some(ps) => ps.particles@,
                Option::None => Seq::empty(),
            },
            twinkle_sins@,
            pulse_sin as int,
        ),
{
    let scale = ScaledValues::new(config, state.transform.k);
    proof {
        lemma_resolved_scale_ok(*config, state.transform.k as int);
    }
    let mut ops: Vec<DrawOp> = Vec::new();
    draw_background(&mut ops, state.width, state.height, theme);
    match particles {
        Some(ps) => {
            draw_particles(&mut ops, theme, ps, twinkle_sins);
        },
        None => {},
    }
    ops.push(
        DrawOp::PushTransform {
            x: state.transform.x,
            y: state.transform.y,
            k: state.transform.k,
        },
    );
    let pulse: i64 = if theme.node.pulse_intensity > 0 {
        proof {
            lemma_mul_abs_le_render(pulse_sin as int, theme.node.pulse_intensity as int);
            crate::fixed::lemma_tdiv_quotient_bound(
                pulse_sin * theme.node.pulse_intensity,
                1_000_000,
                1_000_000,
            );
        }
        mul_div_signed(pulse_sin, theme.node.pulse_intensity, UNIT)
    } else {
        0
    };
    draw_edges(&mut ops, state, positions, config, &scale, theme);
    draw_nodes(&mut ops, state, positions, &scale, theme, pulse);
    ops.push(DrawOp::PopTransform);
    draw_vignette(&mut ops, state.width, state.height, theme);
    proof {
        assert(ops@ =~= spec_frame_ops(
            *state,
            positions@,
            *config,
            *theme,
            match particles {
                Option::Some(ps) => ps.particles@,
                Option::None => Seq::empty(),
            },
            twinkle_sins@,
            pulse_sin as int,
        ));
    }
    ops
}

/// The pulse product stays within one unit of a unit.
proof fn lemma_mul_abs_le_render(s: int, pi: int)
    requires
        -1_000_000 <= s <= 1_000_000,
        0 <= pi <= 1_000_000,
    ensures
        -(1_000_000 * 1_000_000) <= s * pi <= 1_000_000 * 1_000_000,
{
    assert(-(1_000_000 * 1_000_000) <= s * pi <= 1_000_000 * 1_000_000) by (nonlinear_arith)
        requires
            -1_000_000 <= s <= 1_000_000,
            0 <= pi <= 1_000_000,
    ;
}

} // verus!
