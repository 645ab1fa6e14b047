//! Display colours, stored as red, green, blue and alpha channels in
//! thousandths of full intensity, and the two blends the game uses:
//! a linear interpolation between two colours and the alpha decay of a
//! fading remnant.

use vstd::prelude::*;
use crate::num::div_trunc;

verus! {

/// Full intensity of one colour channel.
pub const CHANNEL_ONE: u16 = 1000;

#[derive(Clone, Copy, PartialEq, Eq, Structural, Debug)]
pub struct Rgba {
    pub red: u16,
    pub green: u16,
    pub blue: u16,
    pub alpha: u16,
}

pub open spec fn channel_wf(c: u16) -> bool {
    c <= CHANNEL_ONE
}

pub open spec fn rgba_wf(c: Rgba) -> bool {
    &&& channel_wf(c.red)
    &&& channel_wf(c.green)
    &&& channel_wf(c.blue)
    &&& channel_wf(c.alpha)
}

pub fn color_white() -> (c: Rgba)
    ensures
        c == (Rgba { red: 1000, green: 1000, blue: 1000, alpha: 1000 }),
{
    Rgba { red: 1000, green: 1000, blue: 1000, alpha: 1000 }
}

pub fn color_black() -> (c: Rgba)
    ensures
        c == (Rgba { red: 0, green: 0, blue: 0, alpha: 1000 }),
{
    Rgba { red: 0, green: 0, blue: 0, alpha: 1000 }
}

/// The wall grey: half intensity on every colour channel.
pub fn color_wall_grey() -> (c: Rgba)
    ensures
        c == (Rgba { red: 500, green: 500, blue: 500, alpha: 1000 }),
{
    Rgba { red: 500, green: 500, blue: 500, alpha: 1000 }
}

/// One channel of an eight-bit colour, rescaled to thousandths.
pub open spec fn channel_of_byte(b: int) -> int {
    b * 1000 / 255
}

pub fn channel_from_byte(b: u8) -> (c: u16)
    ensures
        c == channel_of_byte(b as int),
        channel_wf(c),
{
    proof {
        vstd::arithmetic::div_mod::lemma_div_is_ordered(
            (b as int) * 1000,
            255000,
            255,
        );
        vstd::arithmetic::div_mod::lemma_div_is_ordered(0, (b as int) * 1000, 255);
    }
    ((b as u32) * 1000 / 255) as u16
}

/// An opaque colour from three eight-bit channels.
pub fn rgba_from_bytes(r: u8, g: u8, b: u8) -> (c: Rgba)
    ensures
        c.red == channel_of_byte(r as int),
        c.green == channel_of_byte(g as int),
        c.blue == channel_of_byte(b as int),
        c.alpha == CHANNEL_ONE,
        rgba_wf(c),
{
    Rgba {
        red: channel_from_byte(r),
        green: channel_from_byte(g),
        blue: channel_from_byte(b),
        alpha: CHANNEL_ONE,
    }
}

/// Linear interpolation of one channel: `a` moved the fraction `t` (in
/// thousandths) of the way toward `b`, truncating toward zero.
pub open spec fn lerp_channel(a: int, b: int, t: int) -> int {
    a + div_trunc((b - a) * t, 1000)
}

pub fn lerp_channel_u16(a: u16, b: u16, t: u16) -> (r: u16)
    requires
        channel_wf(a),
        channel_wf(b),
        t <= 1000,
    ensures
        r == lerp_channel(a as int, b as int, t as int),
        channel_wf(r),
{
    let diff: i64 = (b as i64) - (a as i64);
    proof {
        assert(-1000000 <= (diff as int) * (t as int) <= 1000000) by (nonlinear_arith)
            requires
                -1000 <= diff as int <= 1000,
                0 <= t as int <= 1000,
        ;
    }
    let scaled: i64 = crate::num::mul_div_trunc(diff, t as i64, 1000);
    proof {
        let d: int = (b - a) * t;
        assert(d == (diff as int) * (t as int));
        if b >= a {
            assert(0 <= d <= (b - a) * 1000) by (nonlinear_arith)
                requires
                    0 <= t <= 1000,
                    b >= a,
                    d == (b - a) * t,
            ;
            vstd::arithmetic::div_mod::lemma_div_is_ordered(0, d, 1000);
            vstd::arithmetic::div_mod::lemma_div_is_ordered(d, (b - a) * 1000, 1000);
            vstd::arithmetic::div_mod::lemma_div_multiples_vanish(b - a, 1000);
        } else {
            assert(0 <= -d <= (a - b) * 1000) by (nonlinear_arith)
                requires
                    0 <= t <= 1000,
                    b < a,
                    d == (b - a) * t,
            ;
            vstd::arithmetic::div_mod::lemma_div_is_ordered(0, -d, 1000);
            vstd::arithmetic::div_mod::lemma_div_is_ordered(-d, (a - b) * 1000, 1000);
            vstd::arithmetic::div_mod::lemma_div_multiples_vanish(a - b, 1000);
        }
    }
    ((a as i64) + scaled) as u16
}

/// All four channels of `a` moved the fraction `t` toward `b`.
pub open spec fn lerp_rgba_spec(a: Rgba, b: Rgba, t: int) -> Rgba {
    Rgba {
        red: lerp_channel(a.red as int, b.red as int, t) as u16,
        green: lerp_channel(a.green as int, b.green as int, t) as u16,
        blue: lerp_channel(a.blue as int, b.blue as int, t) as u16,
        alpha: lerp_channel(a.alpha as int, b.alpha as int, t) as u16,
    }
}

pub fn lerp_rgba(a: Rgba, b: Rgba, t: u16) -> (r: Rgba)
    requires
        rgba_wf(a),
        rgba_wf(b),
        t <= 1000,
    ensures
        r == lerp_rgba_spec(a, b, t as int),
        rgba_wf(r),
{
    Rgba {
        red: lerp_channel_u16(a.red, b.red, t),
        green: lerp_channel_u16(a.green, b.green, t),
        blue: lerp_channel_u16(a.blue, b.blue, t),
        alpha: lerp_channel_u16(a.alpha, b.alpha, t),
    }
}

/// The colour of a fading remnant: the starting colour's hue with its alpha
/// channel set to the fraction of lifetime that remains, in thousandths.
pub open spec fn faded_spec(starting: Rgba, remaining: int, total: int) -> Rgba {
    Rgba {
        red: starting.red,
        green: starting.green,
        blue: starting.blue,
        alpha: (remaining * 1000 / total) as u16,
    }
}

pub fn faded(starting: Rgba, remaining: i64, total: i64) -> (r: Rgba)
    requires
        0 < total <= 1000000000,
        0 <= remaining <= total,
    ensures
        r == faded_spec(starting, remaining as int, total as int),
        rgba_wf(starting) ==> rgba_wf(r),
{
    proof {
        assert((remaining as int) * 1000 <= (total as int) * 1000) by (nonlinear_arith)
            requires
                remaining <= total,
        ;
        vstd::arithmetic::div_mod::lemma_div_is_ordered(0, (remaining as int) * 1000, total as int);
        vstd::arithmetic::div_mod::lemma_div_is_ordered(
            (remaining as int) * 1000,
            (total as int) * 1000,
            total as int,
        );
        vstd::arithmetic::div_mod::lemma_div_multiples_vanish(1000, total as int);
    }
    let alpha: i64 = remaining * 1000 / total;
    Rgba { red: starting.red, green: starting.green, blue: starting.blue, alpha: alpha as u16 }
}

} // verus!
