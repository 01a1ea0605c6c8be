//! Visual theming: colors, palettes and style configuration.
//!
//! Alphas and blend factors are micro-unit fractions of one ([`UNIT`]);
//! channels are plain bytes. CSS serialisations are built character by
//! character against an exact character-sequence specification.

use vstd::prelude::*;

use crate::fixed::{mul_div, UNIT};
use vstd::string::StringExecFns;

verus! {

/// An RGBA color: byte channels and a micro-unit alpha.
#[derive(Clone, Copy, Debug, PartialEq, Eq, Structural)]
pub struct Color {
    pub r: u8,
    pub g: u8,
    pub b: u8,
    /// Alpha in micro-units, within `[0, 1]`.
    pub a: u64,
}

/// The hexadecimal digit character for a value below sixteen.
pub open spec fn hex_digit(v: int) -> char {
    if v == 0 {
        '0'
    } else if v == 1 {
        '1'
    } else if v == 2 {
        '2'
    } else if v == 3 {
        '3'
    } else if v == 4 {
        '4'
    } else if v == 5 {
        '5'
    } else if v == 6 {
        '6'
    } else if v == 7 {
        '7'
    } else if v == 8 {
        '8'
    } else if v == 9 {
        '9'
    } else if v == 10 {
        'a'
    } else if v == 11 {
        'b'
    } else if v == 12 {
        'c'
    } else if v == 13 {
        'd'
    } else if v == 14 {
        'e'
    } else {
        'f'
    }
}

/// The digit slice for a value below sixteen.
fn hex_str(v: u64) -> (r: &'static str)
    requires
        v < 16,
    ensures
        r@ =~= seq![hex_digit(v as int)],
{
    proof {
        reveal_strlit("0");
        reveal_strlit("1");
        reveal_strlit("2");
        reveal_strlit("3");
        reveal_strlit("4");
        reveal_strlit("5");
        reveal_strlit("6");
        reveal_strlit("7");
        reveal_strlit("8");
        reveal_strlit("9");
        reveal_strlit("a");
        reveal_strlit("b");
        reveal_strlit("c");
        reveal_strlit("d");
        reveal_strlit("e");
        reveal_strlit("f");
    }
    match v {
        0 => "0",
        1 => "1",
        2 => "2",
        3 => "3",
        4 => "4",
        5 => "5",
        6 => "6",
        7 => "7",
        8 => "8",
        9 => "9",
        10 => "a",
        11 => "b",
        12 => "c",
        13 => "d",
        14 => "e",
        _ => "f",
    }
}

/// The two hexadecimal digits of a byte.
pub open spec fn hex_byte(v: int) -> Seq<char> {
    seq![hex_digit(v / 16), hex_digit(v % 16)]
}

/// The decimal digits of a byte, without leading zeros.
pub open spec fn dec_byte(v: int) -> Seq<char> {
    if v < 10 {
        seq![hex_digit(v)]
    } else if v < 100 {
        seq![hex_digit(v / 10), hex_digit(v % 10)]
    } else {
        seq![hex_digit(v / 100), hex_digit(v / 10 % 10), hex_digit(v % 10)]
    }
}

/// Append the two hexadecimal digits of a byte.
fn push_hex_byte(s: &mut String, v: u8)
    ensures
        final(s)@ == old(s)@ + hex_byte(v as int),
{
    s.append(hex_str((v / 16) as u64));
    s.append(hex_str((v % 16) as u64));
}

/// Append the decimal digits of a byte.
fn push_dec_byte(s: &mut String, v: u8)
    ensures
        final(s)@ == old(s)@ + dec_byte(v as int),
{
    if v < 10 {
        s.append(hex_str(v as u64));
    } else if v < 100 {
        s.append(hex_str((v / 10) as u64));
        s.append(hex_str((v % 10) as u64));
    } else {
        s.append(hex_str((v / 100) as u64));
        s.append(hex_str((v / 10 % 10) as u64));
        s.append(hex_str((v % 10) as u64));
    }
}

/// The six decimal digits of a micro-unit fraction below one.
pub open spec fn six_digits(a: int) -> Seq<char> {
    seq![
        hex_digit(a / 100_000 % 10),
        hex_digit(a / 10_000 % 10),
        hex_digit(a / 1_000 % 10),
        hex_digit(a / 100 % 10),
        hex_digit(a / 10 % 10),
        hex_digit(a % 10),
    ]
}

/// A digit sequence with its trailing zeros removed.
pub open spec fn trim_zeros(s: Seq<char>) -> Seq<char>
    decreases s.len(),
{
    if s.len() > 0 && s.last() == '0' {
        trim_zeros(s.drop_last())
    } else {
        s
    }
}

/// The decimal rendering of a micro-unit alpha: `0`, `1`, or `0.` and
/// the fraction digits with trailing zeros trimmed.
pub open spec fn alpha_str(a: int) -> Seq<char> {
    if a >= 1_000_000 {
        seq!['1']
    } else if a <= 0 {
        seq!['0']
    } else {
        seq!['0', '.'] + trim_zeros(six_digits(a))
    }
}

/// Append the decimal rendering of a micro-unit alpha.
fn push_alpha(s: &mut String, a: u64)
    requires
        a <= UNIT,
    ensures
        final(s)@ == old(s)@ + alpha_str(a as int),
{
    if a >= UNIT {
        proof {
            reveal_strlit("1");
        }
        s.append("1");
    } else if a == 0 {
        proof {
            reveal_strlit("0");
        }
        s.append("0");
    } else {
        proof {
            reveal_strlit("0.");
        }
        s.append("0.");
        let mut digits: Vec<u64> = Vec::new();
        digits.push(a / 100_000 % 10);
        digits.push(a / 10_000 % 10);
        digits.push(a / 1_000 % 10);
        digits.push(a / 100 % 10);
        digits.push(a / 10 % 10);
        digits.push(a % 10);
        proof {
            assert(six_digits(a as int)[0] == hex_digit(digits[0] as int));
            assert(six_digits(a as int)[1] == hex_digit(digits[1] as int));
            assert(six_digits(a as int)[2] == hex_digit(digits[2] as int));
            assert(six_digits(a as int)[3] == hex_digit(digits[3] as int));
            assert(six_digits(a as int)[4] == hex_digit(digits[4] as int));
            assert(six_digits(a as int)[5] == hex_digit(digits[5] as int));
        }
        let mut end: usize = 6;
        proof {
            assert(six_digits(a as int).take(6) =~= six_digits(a as int));
        }
        while end > 0 && digits[end - 1] == 0
            invariant
                end <= 6,
                digits.len() == 6,
                forall|i: int| 0 <= i < 6 ==> digits[i] < 10,
                forall|i: int|
                    0 <= i < 6 ==> six_digits(a as int)[i] == hex_digit(digits[i] as int),
                trim_zeros(six_digits(a as int)) == trim_zeros(
                    six_digits(a as int).take(end as int),
                ),
            decreases end,
        {
            proof {
                assert(six_digits(a as int).take(end as int).last() == six_digits(a as int)[
                end - 1]);
                assert(six_digits(a as int).take(end as int).drop_last() =~= six_digits(
                    a as int,
                ).take(end - 1));
            }
            end -= 1;
        }
        let mut i: usize = 0;
        while i < end
            invariant
                i <= end <= 6,
                digits.len() == 6,
                forall|j: int| 0 <= j < 6 ==> digits[j] < 10,
                forall|j: int|
                    0 <= j < 6 ==> six_digits(a as int)[j] == hex_digit(digits[j] as int),
                s@ == old(s)@ + seq!['0', '.'] + six_digits(a as int).take(i as int),
                trim_zeros(six_digits(a as int)) == trim_zeros(
                    six_digits(a as int).take(end as int),
                ),
                end > 0 ==> digits[end - 1] != 0,
            decreases end - i,
        {
            s.append(hex_str(digits[i]));
            proof {
                assert(six_digits(a as int).take(i + 1) =~= six_digits(a as int).take(i as int)
                    + seq![six_digits(a as int)[i as int]]);
            }
            i += 1;
        }
        proof {
            // a positive fraction keeps at least one digit, so the trim
            // loop ends on a nonzero final digit: the prefix is trimmed
            if end == 0 {
                assert(six_digits(a as int).take(0) =~= Seq::<char>::empty());
                lemma_six_digits_nonzero(a as int);
                assert(false);
            }
            assert(six_digits(a as int).take(end as int).last() == six_digits(a as int)[
            end - 1]);
            lemma_hex_digit_zero(digits[end - 1] as int);
            assert(trim_zeros(six_digits(a as int).take(end as int)) == six_digits(a as int).take(
                end as int,
            ));
            assert(s@ =~= old(s)@ + alpha_str(a as int));
        }
    }
}

/// Trimming trailing zeros keeps a sequence with a nonzero character
/// somewhere in it from vanishing.
proof fn lemma_trim_keeps_nonzero(s: Seq<char>)
    requires
        exists|i: int| 0 <= i < s.len() && s[i] != '0',
    ensures
        trim_zeros(s).len() > 0,
    decreases s.len(),
{
    if s.len() > 0 && s.last() == '0' {
        let i = choose|i: int| 0 <= i < s.len() && s[i] != '0';
        assert(s.drop_last()[i] != '0');
        lemma_trim_keeps_nonzero(s.drop_last());
    }
}

/// A positive fraction below one has a nonzero digit, so its trimmed
/// digit sequence is not empty.
proof fn lemma_six_digits_nonzero(a: int)
    requires
        0 < a < 1_000_000,
    ensures
        trim_zeros(six_digits(a)).len() > 0,
{
    vstd::arithmetic::div_mod::lemma_mod_bound(a, 10);
    vstd::arithmetic::div_mod::lemma_mod_bound(a / 10, 10);
    vstd::arithmetic::div_mod::lemma_mod_bound(a / 100, 10);
    vstd::arithmetic::div_mod::lemma_mod_bound(a / 1_000, 10);
    vstd::arithmetic::div_mod::lemma_mod_bound(a / 10_000, 10);
    vstd::arithmetic::div_mod::lemma_mod_bound(a / 100_000, 10);
    if a % 10 == 0 && a / 10 % 10 == 0 && a / 100 % 10 == 0 && a / 1_000 % 10 == 0 && a / 10_000
        % 10 == 0 && a / 100_000 % 10 == 0 {
        assert(a == 0) by (nonlinear_arith)
            requires
                0 <= a < 1_000_000,
                a % 10 == 0,
                a / 10 % 10 == 0,
                a / 100 % 10 == 0,
                a / 1_000 % 10 == 0,
                a / 10_000 % 10 == 0,
                a / 100_000 % 10 == 0,
        ;
    }
    if a % 10 != 0 {
        lemma_hex_digit_zero(a % 10);
        assert(six_digits(a)[5] != '0');
    } else if a / 10 % 10 != 0 {
        lemma_hex_digit_zero(a / 10 % 10);
        assert(six_digits(a)[4] != '0');
    } else if a / 100 % 10 != 0 {
        lemma_hex_digit_zero(a / 100 % 10);
        assert(six_digits(a)[3] != '0');
    } else if a / 1_000 % 10 != 0 {
        lemma_hex_digit_zero(a / 1_000 % 10);
        assert(six_digits(a)[2] != '0');
    } else if a / 10_000 % 10 != 0 {
        lemma_hex_digit_zero(a / 10_000 % 10);
        assert(six_digits(a)[1] != '0');
    } else {
        lemma_hex_digit_zero(a / 100_000 % 10);
        assert(six_digits(a)[0] != '0');
    }
    lemma_trim_keeps_nonzero(six_digits(a));
}

/// A digit character is `'0'` exactly for the value zero.
proof fn lemma_hex_digit_zero(v: int)
    requires
        0 <= v <= 9,
    ensures
        (hex_digit(v) == '0') == (v == 0),
{
}

/// A channel lightened toward white by a micro-unit factor.
pub open spec fn spec_lighten_chan(c: int, f: int) -> int {
    c + (255 - c) * f / 1_000_000
}

/// A channel darkened toward black by a micro-unit factor.
pub open spec fn spec_darken_chan(c: int, f: int) -> int {
    c * (1_000_000 - f) / 1_000_000
}

/// The weighted average of two values at blend position `t`.
pub open spec fn spec_blend(x: int, y: int, t: int) -> int {
    (x * (1_000_000 - t) + y * t) / 1_000_000
}

/// The weighted average of two values below a common cap, staying below
/// the cap.
fn blend(x: u64, y: u64, t: u64, cap: u64) -> (r: u64)
    requires
        x <= cap,
        y <= cap,
        t <= UNIT,
        cap <= 1_000_000,
    ensures
        r == spec_blend(x as int, y as int, t as int),
        r <= cap,
{
    proof {
        assert(x * (1_000_000 - t) + y * t <= cap * 1_000_000) by (nonlinear_arith)
            requires
                x <= cap,
                y <= cap,
                t <= 1_000_000,
        ;
        assert(x * (1_000_000 - t) + y * t >= 0) by (nonlinear_arith)
            requires
                x >= 0,
                y >= 0,
                0 <= t <= 1_000_000,
        ;
        vstd::arithmetic::div_mod::lemma_div_is_ordered(
            x * (1_000_000 - t) + y * t,
            cap * 1_000_000,
            1_000_000,
        );
        vstd::arithmetic::div_mod::lemma_div_pos_is_pos(x * (1_000_000 - t) + y * t, 1_000_000);
        vstd::arithmetic::div_mod::lemma_div_multiples_vanish(cap as int, 1_000_000);
        assert(cap * 1_000_000 == 1_000_000 * cap) by (nonlinear_arith);
    }
    let p = x * (UNIT - t) + y * t;
    p / UNIT
}

impl Color {
    /// A fully opaque color.
    pub fn rgb(r: u8, g: u8, b: u8) -> (c: Color)
        ensures
            c == (Color { r, g, b, a: UNIT }),
    {
        Color { r, g, b, a: UNIT }
    }

    /// A color with an explicit micro-unit alpha.
    pub fn rgba(r: u8, g: u8, b: u8, a: u64) -> (c: Color)
        requires
            a <= UNIT,
        ensures
            c == (Color { r, g, b, a }),
    {
        Color { r, g, b, a }
    }

    /// Alphas within `[0, 1]`.
    pub open spec fn wf(self) -> bool {
        self.a <= UNIT
    }

    /// The same color under a new alpha.
    pub fn with_alpha(self, a: u64) -> (c: Color)
        requires
            a <= UNIT,
        ensures
            c == (Color { a, ..self }),
    {
        Color { a, ..self }
    }

    /// Lighten toward white: zero leaves the color, one gives white.
    /// The factor is clamped into `[0, 1]`.
    pub fn lighten(self, factor: u64) -> (c: Color)
        ensures
            ({
                let f = crate::fixed::spec_clamp(factor as int, 0, UNIT as int);
                &&& c.r == spec_lighten_chan(self.r as int, f)
                &&& c.g == spec_lighten_chan(self.g as int, f)
                &&& c.b == spec_lighten_chan(self.b as int, f)
                &&& c.a == self.a
            }),
    {
        let f = if factor > UNIT {
            UNIT
        } else {
            factor
        };
        Color {
            r: lighten_chan(self.r, f),
            g: lighten_chan(self.g, f),
            b: lighten_chan(self.b, f),
            a: self.a,
        }
    }

    /// Darken toward black: zero leaves the color, one gives black.
    /// The factor is clamped into `[0, 1]`.
    pub fn darken(self, factor: u64) -> (c: Color)
        ensures
            ({
                let f = crate::fixed::spec_clamp(factor as int, 0, UNIT as int);
                &&& c.r == spec_darken_chan(self.r as int, f)
                &&& c.g == spec_darken_chan(self.g as int, f)
                &&& c.b == spec_darken_chan(self.b as int, f)
                &&& c.a == self.a
            }),
    {
        let f = if factor > UNIT {
            UNIT
        } else {
            factor
        };
        Color {
            r: darken_chan(self.r, f),
            g: darken_chan(self.g, f),
            b: darken_chan(self.b, f),
            a: self.a,
        }
    }

    /// Linear interpolation toward another color at clamped position
    /// `t`: channels and alpha blend alike.
    pub fn lerp(self, other: Color, t: u64) -> (c: Color)
        requires
            self.wf(),
            other.wf(),
        ensures
            ({
                let tc = crate::fixed::spec_clamp(t as int, 0, UNIT as int);
                &&& c.r == spec_blend(self.r as int, other.r as int, tc)
                &&& c.g == spec_blend(self.g as int, other.g as int, tc)
                &&& c.b == spec_blend(self.b as int, other.b as int, tc)
                &&& c.a == spec_blend(self.a as int, other.a as int, tc)
                &&& c.wf()
            }),
    {
        let tc = if t > UNIT {
            UNIT
        } else {
            t
        };
        Color {
            r: blend(self.r as u64, other.r as u64, tc, 255) as u8,
            g: blend(self.g as u64, other.g as u64, tc, 255) as u8,
            b: blend(self.b as u64, other.b as u64, tc, 255) as u8,
            a: blend(self.a, other.a, tc, UNIT),
        }
    }
}

/// Lighten one channel by a micro-unit factor.
fn lighten_chan(c: u8, f: u64) -> (r: u8)
    requires
        f <= UNIT,
    ensures
        r == spec_lighten_chan(c as int, f as int),
{
    proof {
        vstd::arithmetic::mul::lemma_mul_inequality(f as int, 1_000_000, 255 - c);
        assert(f * (255 - c) == (255 - c) * f) by (nonlinear_arith);
        assert(1_000_000 * (255 - c) == (255 - c) * 1_000_000) by (nonlinear_arith);
        vstd::arithmetic::div_mod::lemma_div_is_ordered(
            (255 - c) * f,
            (255 - c) * 1_000_000,
            1_000_000,
        );
        vstd::arithmetic::div_mod::lemma_div_multiples_vanish(255 - c, 1_000_000);
        vstd::arithmetic::mul::lemma_mul_nonnegative(255 - c, f as int);
        vstd::arithmetic::div_mod::lemma_div_pos_is_pos((255 - c) * f, 1_000_000);
    }
    let add = mul_div(255 - (c as u64), f, UNIT);
    c + (add as u8)
}

/// Darken one channel by a micro-unit factor.
fn darken_chan(c: u8, f: u64) -> (r: u8)
    requires
        f <= UNIT,
    ensures
        r == spec_darken_chan(c as int, f as int),
{
    proof {
        vstd::arithmetic::mul::lemma_mul_inequality(1_000_000 - f, 1_000_000, c as int);
        assert((1_000_000 - f) * c == c * (1_000_000 - f)) by (nonlinear_arith);
        assert(1_000_000 * c == c * 1_000_000) by (nonlinear_arith);
        vstd::arithmetic::div_mod::lemma_div_is_ordered(
            c * (1_000_000 - f),
            c * 1_000_000,
            1_000_000,
        );
        vstd::arithmetic::div_mod::lemma_div_multiples_vanish(c as int, 1_000_000);
        vstd::arithmetic::mul::lemma_mul_nonnegative(c as int, 1_000_000 - f);
        vstd::arithmetic::div_mod::lemma_div_pos_is_pos(c * (1_000_000 - f), 1_000_000);
    }
    let keep = mul_div(c as u64, UNIT - f, UNIT);
    keep as u8
}

/// A color lightened toward white by a micro-unit factor.
pub open spec fn spec_lighten(c: Color, f: int) -> Color {
    Color {
        r: spec_lighten_chan(c.r as int, f) as u8,
        g: spec_lighten_chan(c.g as int, f) as u8,
        b: spec_lighten_chan(c.b as int, f) as u8,
        a: c.a,
    }
}

/// A color darkened toward black by a micro-unit factor.
pub open spec fn spec_darken(c: Color, f: int) -> Color {
    Color {
        r: spec_darken_chan(c.r as int, f) as u8,
        g: spec_darken_chan(c.g as int, f) as u8,
        b: spec_darken_chan(c.b as int, f) as u8,
        a: c.a,
    }
}

/// Two colors blended at position `t`, channels and alpha alike.
pub open spec fn spec_lerp(c1: Color, c2: Color, t: int) -> Color {
    Color {
        r: spec_blend(c1.r as int, c2.r as int, t) as u8,
        g: spec_blend(c1.g as int, c2.g as int, t) as u8,
        b: spec_blend(c1.b as int, c2.b as int, t) as u8,
        a: spec_blend(c1.a as int, c2.a as int, t) as u64,
    }
}

/// The hexadecimal form `#rrggbb` of a color, alpha set aside.
pub open spec fn spec_css_rgb(c: Color) -> Seq<char> {
    seq!['#'] + hex_byte(c.r as int) + hex_byte(c.g as int) + hex_byte(c.b as int)
}

/// The CSS form of a color: hexadecimal when essentially opaque, the
/// `rgba(r, g, b, a)` form otherwise.
pub open spec fn spec_css(c: Color) -> Seq<char> {
    if c.a > 999_000 {
        spec_css_rgb(c)
    } else {
        seq!['r', 'g', 'b', 'a', '('] + dec_byte(c.r as int) + seq![',', ' '] + dec_byte(
            c.g as int,
        ) + seq![',', ' '] + dec_byte(c.b as int) + seq![',', ' '] + alpha_str(c.a as int) + seq![
            ')',
        ]
    }
}

impl Color {
    /// The CSS rendering of the color with its alpha.
    pub fn to_css(self) -> (r: String)
        requires
            self.wf(),
        ensures
            r@ == spec_css(self),
    {
        if self.a > 999_000 {
            self.to_css_rgb()
        } else {
            proof {
                reveal_strlit("rgba(");
                reveal_strlit(", ");
                reveal_strlit(")");
            }
            let mut s = String::new();
            s.append("rgba(");
            proof {
                assert(s@ =~= seq!['r', 'g', 'b', 'a', '(']);
            }
            push_dec_byte(&mut s, self.r);
            s.append(", ");
            push_dec_byte(&mut s, self.g);
            s.append(", ");
            push_dec_byte(&mut s, self.b);
            s.append(", ");
            push_alpha(&mut s, self.a);
            s.append(")");
            proof {
                assert(s@ =~= spec_css(self));
            }
            s
        }
    }

    /// The hexadecimal `#rrggbb` rendering of the color.
    pub fn to_css_rgb(self) -> (r: String)
        ensures
            r@ == spec_css_rgb(self),
    {
        proof {
            reveal_strlit("#");
        }
        let mut s = String::new();
        s.append("#");
        proof {
            assert(s@ =~= seq!['#']);
        }
        push_hex_byte(&mut s, self.r);
        push_hex_byte(&mut s, self.g);
        push_hex_byte(&mut s, self.b);
        proof {
            assert(s@ =~= spec_css_rgb(self));
        }
        s
    }
}

/// A curated node color palette.
pub struct NodePalette {
    pub colors: Vec<Color>,
}

impl NodePalette {
    /// A palette holds at least one opaque color.
    pub open spec fn wf(self) -> bool {
        &&& self.colors.len() > 0
        &&& forall|i: int| 0 <= i < self.colors.len() ==> self.colors[i].wf()
    }

    /// The palette color for an index, cycling past the end.
    pub fn get(&self, index: usize) -> (c: Color)
        requires
            self.wf(),
        ensures
            c == self.colors[index as int % self.colors.len() as int],
            c.wf(),
    {
        self.colors[index % self.colors.len()]
    }

    /// Muted, harmonious slate blues and teals (the default).
    pub fn slate() -> (p: NodePalette)
        ensures
            p.colors@ == spec_slate(),
            p.wf(),
    {
        let mut colors: Vec<Color> = Vec::new();
        colors.push(Color::rgb(94, 129, 172));
        colors.push(Color::rgb(129, 161, 193));
        colors.push(Color::rgb(100, 148, 160));
        colors.push(Color::rgb(136, 160, 175));
        colors.push(Color::rgb(108, 142, 173));
        colors.push(Color::rgb(119, 158, 165));
        colors.push(Color::rgb(143, 163, 180));
        colors.push(Color::rgb(122, 153, 168));
        proof {
            assert(colors@ =~= spec_slate());
        }
        NodePalette { colors }
    }

    /// Warm earth tones: muted oranges and browns.
    pub fn earth() -> (p: NodePalette)
        ensures
            p.colors@ == spec_earth(),
            p.wf(),
    {
        let mut colors: Vec<Color> = Vec::new();
        colors.push(Color::rgb(180, 136, 100));
        colors.push(Color::rgb(160, 125, 100));
        colors.push(Color::rgb(170, 145, 115));
        colors.push(Color::rgb(145, 120, 95));
        colors.push(Color::rgb(175, 150, 120));
        colors.push(Color::rgb(155, 130, 105));
        colors.push(Color::rgb(165, 140, 110));
        colors.push(Color::rgb(150, 125, 100));
        proof {
            assert(colors@ =~= spec_earth());
        }
        NodePalette { colors }
    }

    /// Soft, gentle pastels.
    pub fn pastel() -> (p: NodePalette)
        ensures
            p.colors@ == spec_pastel(),
            p.wf(),
    {
        let mut colors: Vec<Color> = Vec::new();
        colors.push(Color::rgb(200, 180, 190));
        colors.push(Color::rgb(180, 195, 205));
        colors.push(Color::rgb(190, 200, 180));
        colors.push(Color::rgb(205, 195, 180));
        colors.push(Color::rgb(185, 190, 200));
        colors.push(Color::rgb(195, 185, 175));
        colors.push(Color::rgb(180, 200, 195));
        colors.push(Color::rgb(200, 190, 185));
        proof {
            assert(colors@ =~= spec_pastel());
        }
        NodePalette { colors }
    }

    /// Ocean depths: blues and teals.
    pub fn ocean() -> (p: NodePalette)
        ensures
            p.colors@ == spec_ocean(),
            p.wf(),
    {
        let mut colors: Vec<Color> = Vec::new();
        colors.push(Color::rgb(70, 110, 140));
        colors.push(Color::rgb(80, 130, 150));
        colors.push(Color::rgb(100, 145, 160));
        colors.push(Color::rgb(90, 125, 145));
        colors.push(Color::rgb(85, 135, 155));
        colors.push(Color::rgb(95, 120, 140));
        colors.push(Color::rgb(75, 115, 135));
        colors.push(Color::rgb(88, 128, 148));
        proof {
            assert(colors@ =~= spec_ocean());
        }
        NodePalette { colors }
    }

    /// Warm muted sunset tones.
    pub fn sunset() -> (p: NodePalette)
        ensures
            p.colors@ == spec_sunset(),
            p.wf(),
    {
        let mut colors: Vec<Color> = Vec::new();
        colors.push(Color::rgb(180, 120, 100));
        colors.push(Color::rgb(170, 130, 95));
        colors.push(Color::rgb(185, 145, 110));
        colors.push(Color::rgb(165, 115, 90));
        colors.push(Color::rgb(175, 125, 105));
        colors.push(Color::rgb(160, 135, 100));
        colors.push(Color::rgb(170, 140, 115));
        colors.push(Color::rgb(155, 120, 95));
        proof {
            assert(colors@ =~= spec_sunset());
        }
        NodePalette { colors }
    }

    /// Cool teals and purples.
    pub fn aurora() -> (p: NodePalette)
        ensures
            p.colors@ == spec_aurora(),
            p.wf(),
    {
        let mut colors: Vec<Color> = Vec::new();
        colors.push(Color::rgb(100, 145, 135));
        colors.push(Color::rgb(115, 135, 155));
        colors.push(Color::rgb(130, 120, 150));
        colors.push(Color::rgb(105, 140, 145));
        colors.push(Color::rgb(120, 130, 160));
        colors.push(Color::rgb(125, 145, 140));
        colors.push(Color::rgb(110, 125, 155));
        colors.push(Color::rgb(135, 140, 150));
        proof {
            assert(colors@ =~= spec_aurora());
        }
        NodePalette { colors }
    }
}

/// Muted, harmonious slate blues and teals (the default).
pub open spec fn spec_slate() -> Seq<Color> {
    seq![
        Color { r: 94, g: 129, b: 172, a: UNIT },
        Color { r: 129, g: 161, b: 193, a: UNIT },
        Color { r: 100, g: 148, b: 160, a: UNIT },
        Color { r: 136, g: 160, b: 175, a: UNIT },
        Color { r: 108, g: 142, b: 173, a: UNIT },
        Color { r: 119, g: 158, b: 165, a: UNIT },
        Color { r: 143, g: 163, b: 180, a: UNIT },
        Color { r: 122, g: 153, b: 168, a: UNIT },
    ]
}

/// Warm earth tones: muted oranges and browns.
pub open spec fn spec_earth() -> Seq<Color> {
    seq![
        Color { r: 180, g: 136, b: 100, a: UNIT },
        Color { r: 160, g: 125, b: 100, a: UNIT },
        Color { r: 170, g: 145, b: 115, a: UNIT },
        Color { r: 145, g: 120, b: 95, a: UNIT },
        Color { r: 175, g: 150, b: 120, a: UNIT },
        Color { r: 155, g: 130, b: 105, a: UNIT },
        Color { r: 165, g: 140, b: 110, a: UNIT },
        Color { r: 150, g: 125, b: 100, a: UNIT },
    ]
}

/// Soft, gentle pastels.
pub open spec fn spec_pastel() -> Seq<Color> {
    seq![
        Color { r: 200, g: 180, b: 190, a: UNIT },
        Color { r: 180, g: 195, b: 205, a: UNIT },
        Color { r: 190, g: 200, b: 180, a: UNIT },
        Color { r: 205, g: 195, b: 180, a: UNIT },
        Color { r: 185, g: 190, b: 200, a: UNIT },
        Color { r: 195, g: 185, b: 175, a: UNIT },
        Color { r: 180, g: 200, b: 195, a: UNIT },
        Color { r: 200, g: 190, b: 185, a: UNIT },
    ]
}

/// Ocean depths: blues and teals.
pub open spec fn spec_ocean() -> Seq<Color> {
    seq![
        Color { r: 70, g: 110, b: 140, a: UNIT },
        Color { r: 80, g: 130, b: 150, a: UNIT },
        Color { r: 100, g: 145, b: 160, a: UNIT },
        Color { r: 90, g: 125, b: 145, a: UNIT },
        Color { r: 85, g: 135, b: 155, a: UNIT },
        Color { r: 95, g: 120, b: 140, a: UNIT },
        Color { r: 75, g: 115, b: 135, a: UNIT },
        Color { r: 88, g: 128, b: 148, a: UNIT },
    ]
}

/// Warm muted sunset tones.
pub open spec fn spec_sunset() -> Seq<Color> {
    seq![
        Color { r: 180, g: 120, b: 100, a: UNIT },
        Color { r: 170, g: 130, b: 95, a: UNIT },
        Color { r: 185, g: 145, b: 110, a: UNIT },
        Color { r: 165, g: 115, b: 90, a: UNIT },
        Color { r: 175, g: 125, b: 105, a: UNIT },
        Color { r: 160, g: 135, b: 100, a: UNIT },
        Color { r: 170, g: 140, b: 115, a: UNIT },
        Color { r: 155, g: 120, b: 95, a: UNIT },
    ]
}

/// Cool teals and purples.
pub open spec fn spec_aurora() -> Seq<Color> {
    seq![
        Color { r: 100, g: 145, b: 135, a: UNIT },
        Color { r: 115, g: 135, b: 155, a: UNIT },
        Color { r: 130, g: 120, b: 150, a: UNIT },
        Color { r: 105, g: 140, b: 145, a: UNIT },
        Color { r: 120, g: 130, b: 160, a: UNIT },
        Color { r: 125, g: 145, b: 140, a: UNIT },
        Color { r: 110, g: 125, b: 155, a: UNIT },
        Color { r: 135, g: 140, b: 150, a: UNIT },
    ]
}

/// Background style: a flat color or a two-stop radial gradient, with an
/// optional vignette.
pub struct BackgroundStyle {
    /// Primary background color.
    pub color: Color,
    /// Secondary color for the gradient center.
    pub color_secondary: Color,
    /// Whether to fill with a radial gradient.
    pub use_gradient: bool,
    /// Vignette strength in micro-units; zero for none.
    pub vignette: u64,
}

/// Edge visual style.
pub struct EdgeStyle {
    /// Base edge color.
    pub color: Color,
    /// Glow color, usually a lighter variant.
    pub glow_color: Color,
    /// Edge glow strength in micro-units; zero skips the glow pass.
    pub glow_intensity: u64,
    /// Whether edges curve.
    pub curved: bool,
    /// Curve tension in micro-units; zero is straight.
    pub curve_tension: u64,
}

/// Node visual style.
pub struct NodeStyle {
    /// Whether nodes carry an inner gradient.
    pub use_gradient: bool,
    /// Outer glow strength in micro-units; zero skips the glow pass.
    pub glow_intensity: u64,
    /// How much the node color tints the glow, in micro-units.
    pub glow_saturation: u64,
    /// Border stroke width in micro-pixels; zero for no border.
    pub border_width: u64,
    /// Border color.
    pub border_color: Color,
    /// Pulsing strength in micro-units; zero for none.
    pub pulse_intensity: u64,
    /// Pulsing speed in micro-units.
    pub pulse_speed: u64,
}

/// Ambient particle configuration.
pub struct ParticleStyle {
    /// Whether particles are drawn at all.
    pub enabled: bool,
    /// How many particles to seed.
    pub count: usize,
    /// Particle color.
    pub color: Color,
    /// Smallest particle size in micro-pixels.
    pub size_min: u64,
    /// Largest particle size in micro-pixels.
    pub size_max: u64,
    /// Base movement speed in micro-pixels per frame.
    pub speed: u64,
    /// Base opacity in micro-units.
    pub opacity: u64,
}

impl ParticleStyle {
    /// Bounds that keep particle arithmetic exact.
    pub open spec fn wf(self) -> bool {
        &&& self.color.wf()
        &&& self.size_min <= self.size_max <= crate::scale::MAX_SIZE
        &&& self.speed <= 1_000_000_000
        &&& self.opacity <= UNIT
    }
}

/// A complete visual theme.
pub struct Theme {
    pub name: &'static str,
    pub background: BackgroundStyle,
    pub edge: EdgeStyle,
    pub node: NodeStyle,
    pub particles: ParticleStyle,
    pub palette: NodePalette,
}

impl Theme {
    /// All colors, alphas and bounds of the theme well-formed.
    pub open spec fn wf(self) -> bool {
        &&& self.background.color.wf()
        &&& self.background.color_secondary.wf()
        &&& self.background.vignette <= UNIT
        &&& self.edge.color.wf()
        &&& self.edge.glow_color.wf()
        &&& self.edge.glow_intensity <= UNIT
        &&& self.edge.curve_tension <= UNIT
        &&& self.node.glow_intensity <= UNIT
        &&& self.node.glow_saturation <= UNIT
        &&& self.node.border_width <= crate::scale::MAX_SIZE
        &&& self.node.border_color.wf()
        &&& self.node.pulse_intensity <= UNIT
        &&& self.node.pulse_speed <= 1_000_000_000
        &&& self.particles.wf()
        &&& self.palette.wf()
    }
}

/// The particle configuration shared by the stock themes: disabled.
pub open spec fn spec_no_particles() -> ParticleStyle {
    ParticleStyle {
        enabled: false,
        count: 0,
        color: Color { r: 0, g: 0, b: 0, a: 0 },
        size_min: 0,
        size_max: 0,
        speed: 0,
        opacity: 0,
    }
}

/// The disabled particle configuration of the stock themes.
fn no_particles() -> (p: ParticleStyle)
    ensures
        p == spec_no_particles(),
{
    ParticleStyle {
        enabled: false,
        count: 0,
        color: Color { r: 0, g: 0, b: 0, a: 0 },
        size_min: 0,
        size_max: 0,
        speed: 0,
        opacity: 0,
    }
}

/// The node style shared by the gradient themes.
fn plain_node_style(use_gradient: bool) -> (n: NodeStyle)
    ensures
        n == (NodeStyle {
            use_gradient,
            glow_intensity: 0,
            glow_saturation: 0,
            border_width: 0,
            border_color: Color { r: 255, g: 255, b: 255, a: 0 },
            pulse_intensity: 0,
            pulse_speed: 0,
        }),
{
    NodeStyle {
        use_gradient,
        glow_intensity: 0,
        glow_saturation: 0,
        border_width: 0,
        border_color: Color { r: 255, g: 255, b: 255, a: 0 },
        pulse_intensity: 0,
        pulse_speed: 0,
    }
}

impl Theme {

    /// Clean modern theme with subtle effects (the default).
    pub fn default_theme() -> (t: Theme)
        ensures
            t.name@ == "default"@,
            t.background == (BackgroundStyle {
                color: Color { r: 22, g: 27, b: 34, a: UNIT },
                color_secondary: Color { r: 30, g: 35, b: 42, a: UNIT },
                use_gradient: true,
                vignette: 150000,
            }),
            t.edge == (EdgeStyle {
                color: Color { r: 140, g: 160, b: 180, a: 500000 },
                glow_color: Color { r: 140, g: 160, b: 180, a: 100000 },
                glow_intensity: 0,
                curved: false,
                curve_tension: 0,
            }),
            t.node == (NodeStyle {
                use_gradient: true,
                glow_intensity: 0,
                glow_saturation: 0,
                border_width: 0,
                border_color: Color { r: 255, g: 255, b: 255, a: 0 },
                pulse_intensity: 0,
                pulse_speed: 0,
            }),
            t.particles == spec_no_particles(),
            t.palette.colors@ == spec_slate(),
            t.wf(),
    {
        Theme {
            name: "default",
            background: BackgroundStyle {
                color: Color::rgb(22, 27, 34),
                color_secondary: Color::rgb(30, 35, 42),
                use_gradient: true,
                vignette: 150000,
            },
            edge: EdgeStyle {
                color: Color::rgba(140, 160, 180, 500000),
                glow_color: Color::rgba(140, 160, 180, 100000),
                glow_intensity: 0,
                curved: false,
                curve_tension: 0,
            },
            node: plain_node_style(true),
            particles: no_particles(),
            palette: NodePalette::slate(),
        }
    }

    /// Elegant dark theme with subtle effects.
    pub fn midnight() -> (t: Theme)
        ensures
            t.name@ == "midnight"@,
            t.background == (BackgroundStyle {
                color: Color { r: 18, g: 20, b: 28, a: UNIT },
                color_secondary: Color { r: 25, g: 28, b: 38, a: UNIT },
                use_gradient: true,
                vignette: 200000,
            }),
            t.edge == (EdgeStyle {
                color: Color { r: 100, g: 120, b: 150, a: 450000 },
                glow_color: Color { r: 100, g: 120, b: 150, a: 100000 },
                glow_intensity: 0,
                curved: false,
                curve_tension: 0,
            }),
            t.node == (NodeStyle {
                use_gradient: true,
                glow_intensity: 0,
                glow_saturation: 0,
                border_width: 0,
                border_color: Color { r: 255, g: 255, b: 255, a: 0 },
                pulse_intensity: 0,
                pulse_speed: 0,
            }),
            t.particles == spec_no_particles(),
            t.palette.colors@ == spec_aurora(),
            t.wf(),
    {
        Theme {
            name: "midnight",
            background: BackgroundStyle {
                color: Color::rgb(18, 20, 28),
                color_secondary: Color::rgb(25, 28, 38),
                use_gradient: true,
                vignette: 200000,
            },
            edge: EdgeStyle {
                color: Color::rgba(100, 120, 150, 450000),
                glow_color: Color::rgba(100, 120, 150, 100000),
                glow_intensity: 0,
                curved: false,
                curve_tension: 0,
            },
            node: plain_node_style(true),
            particles: no_particles(),
            palette: NodePalette::aurora(),
        }
    }

    /// Warm earth tones theme.
    pub fn ember() -> (t: Theme)
        ensures
            t.name@ == "ember"@,
            t.background == (BackgroundStyle {
                color: Color { r: 28, g: 24, b: 22, a: UNIT },
                color_secondary: Color { r: 35, g: 30, b: 28, a: UNIT },
                use_gradient: true,
                vignette: 180000,
            }),
            t.edge == (EdgeStyle {
                color: Color { r: 160, g: 130, b: 110, a: 450000 },
                glow_color: Color { r: 160, g: 130, b: 110, a: 100000 },
                glow_intensity: 0,
                curved: false,
                curve_tension: 0,
            }),
            t.node == (NodeStyle {
                use_gradient: true,
                glow_intensity: 0,
                glow_saturation: 0,
                border_width: 0,
                border_color: Color { r: 255, g: 255, b: 255, a: 0 },
                pulse_intensity: 0,
                pulse_speed: 0,
            }),
            t.particles == spec_no_particles(),
            t.palette.colors@ == spec_earth(),
            t.wf(),
    {
        Theme {
            name: "ember",
            background: BackgroundStyle {
                color: Color::rgb(28, 24, 22),
                color_secondary: Color::rgb(35, 30, 28),
                use_gradient: true,
                vignette: 180000,
            },
            edge: EdgeStyle {
                color: Color::rgba(160, 130, 110, 450000),
                glow_color: Color::rgba(160, 130, 110, 100000),
                glow_intensity: 0,
                curved: false,
                curve_tension: 0,
            },
            node: plain_node_style(true),
            particles: no_particles(),
            palette: NodePalette::earth(),
        }
    }

    /// Ocean and deep blue theme.
    pub fn deep_sea() -> (t: Theme)
        ensures
            t.name@ == "deep_sea"@,
            t.background == (BackgroundStyle {
                color: Color { r: 15, g: 25, b: 35, a: UNIT },
                color_secondary: Color { r: 20, g: 32, b: 45, a: UNIT },
                use_gradient: true,
                vignette: 200000,
            }),
            t.edge == (EdgeStyle {
                color: Color { r: 90, g: 130, b: 160, a: 450000 },
                glow_color: Color { r: 90, g: 130, b: 160, a: 100000 },
                glow_intensity: 0,
                curved: false,
                curve_tension: 0,
            }),
            t.node == (NodeStyle {
                use_gradient: true,
                glow_intensity: 0,
                glow_saturation: 0,
                border_width: 0,
                border_color: Color { r: 255, g: 255, b: 255, a: 0 },
                pulse_intensity: 0,
                pulse_speed: 0,
            }),
            t.particles == spec_no_particles(),
            t.palette.colors@ == spec_ocean(),
            t.wf(),
    {
        Theme {
            name: "deep_sea",
            background: BackgroundStyle {
                color: Color::rgb(15, 25, 35),
                color_secondary: Color::rgb(20, 32, 45),
                use_gradient: true,
                vignette: 200000,
            },
            edge: EdgeStyle {
                color: Color::rgba(90, 130, 160, 450000),
                glow_color: Color::rgba(90, 130, 160, 100000),
                glow_intensity: 0,
                curved: false,
                curve_tension: 0,
            },
            node: plain_node_style(true),
            particles: no_particles(),
            palette: NodePalette::ocean(),
        }
    }

    /// Minimal, ultra-clean theme.
    pub fn minimal() -> (t: Theme)
        ensures
            t.name@ == "minimal"@,
            t.background == (BackgroundStyle {
                color: Color { r: 25, g: 28, b: 35, a: UNIT },
                color_secondary: Color { r: 25, g: 28, b: 35, a: UNIT },
                use_gradient: false,
                vignette: 0,
            }),
            t.edge == (EdgeStyle {
                color: Color { r: 130, g: 145, b: 165, a: 400000 },
                glow_color: Color { r: 130, g: 145, b: 165, a: 0 },
                glow_intensity: 0,
                curved: false,
                curve_tension: 0,
            }),
            t.node == (NodeStyle {
                use_gradient: false,
                glow_intensity: 0,
                glow_saturation: 0,
                border_width: 0,
                border_color: Color { r: 255, g: 255, b: 255, a: 0 },
                pulse_intensity: 0,
                pulse_speed: 0,
            }),
            t.particles == spec_no_particles(),
            t.palette.colors@ == spec_pastel(),
            t.wf(),
    {
        Theme {
            name: "minimal",
            background: BackgroundStyle {
                color: Color::rgb(25, 28, 35),
                color_secondary: Color::rgb(25, 28, 35),
                use_gradient: false,
                vignette: 0,
            },
            edge: EdgeStyle {
                color: Color::rgba(130, 145, 165, 400000),
                glow_color: Color::rgba(130, 145, 165, 0),
                glow_intensity: 0,
                curved: false,
                curve_tension: 0,
            },
            node: plain_node_style(false),
            particles: no_particles(),
            palette: NodePalette::pastel(),
        }
    }
}

impl Default for Theme {
    /// The stock theme.
    fn default() -> (t: Theme)
        ensures
            t.name@ == "default"@,
            t.particles == spec_no_particles(),
            t.palette.colors@ == spec_slate(),
            t.wf(),
    {
        Theme::default_theme()
    }
}

} // verus!
