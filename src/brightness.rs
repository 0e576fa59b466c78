use vstd::prelude::*;
use vstd::arithmetic::div_mod::{lemma_div_is_ordered, lemma_div_by_multiple, lemma_div_pos_is_pos};
use vstd::arithmetic::mul::{lemma_mul_inequality, lemma_mul_is_commutative};

use crate::color::RGB;

verus! {

/// A channel of intensity `c` seen at `elapsed` frames into a glow that rises
/// linearly over `rise` frames and falls linearly over `fade` frames:
/// `floor(c * brightness)` where brightness is `elapsed / rise` while rising,
/// `1 - (elapsed - rise) / fade` while falling, and zero afterwards.
pub open spec fn scaled_channel(c: int, elapsed: int, rise: int, fade: int) -> int {
    if elapsed < rise {
        c * elapsed / rise
    } else if elapsed < rise + fade {
        c * (rise + fade - elapsed) / fade
    } else {
        0
    }
}

/// A glow color dimmed channel by channel to the brightness at `elapsed`.
pub open spec fn dimmed(glow: RGB, elapsed: int, rise: int, fade: int) -> RGB {
    RGB {
        red: scaled_channel(glow.red as int, elapsed, rise, fade) as u8,
        green: scaled_channel(glow.green as int, elapsed, rise, fade) as u8,
        blue: scaled_channel(glow.blue as int, elapsed, rise, fade) as u8,
    }
}

/// `c * a / b` never exceeds `c` when `a <= b`.
proof fn lemma_fraction_at_most(c: int, a: int, b: int)
    requires
        0 <= c,
        0 <= a <= b,
        0 < b,
    ensures
        0 <= c * a / b <= c,
{
    lemma_mul_inequality(a, b, c);
    lemma_mul_is_commutative(a, c);
    lemma_mul_is_commutative(b, c);
    lemma_div_is_ordered(c * a, c * b, b);
    lemma_div_by_multiple(c, b);
    assert(0 <= c * a) by (nonlinear_arith)
        requires
            0 <= c,
            0 <= a,
    ;
    lemma_div_pos_is_pos(c * a, b);
}

/// `c * a / b` grows with `a`.
proof fn lemma_fraction_ordered(c: int, a1: int, a2: int, b: int)
    requires
        0 <= c,
        a1 <= a2,
        0 < b,
    ensures
        c * a1 / b <= c * a2 / b,
{
    lemma_mul_inequality(a1, a2, c);
    lemma_mul_is_commutative(a1, c);
    lemma_mul_is_commutative(a2, c);
    lemma_div_is_ordered(c * a1, c * a2, b);
}

/// Dimming is an attenuation: the scaled channel lies between zero and the
/// channel itself.
pub proof fn lemma_scaled_channel_bounded(c: int, elapsed: int, rise: int, fade: int)
    requires
        0 <= c,
        0 <= elapsed,
        0 <= rise,
        0 <= fade,
    ensures
        0 <= scaled_channel(c, elapsed, rise, fade) <= c,
{
    if elapsed < rise {
        lemma_fraction_at_most(c, elapsed, rise);
    } else if elapsed < rise + fade {
        lemma_fraction_at_most(c, rise + fade - elapsed, fade);
    }
}

/// The brightness curve: dark at the start of a glow that has a rise, at full intensity once
/// `rise` frames have passed (when there is a fade to follow), dark again once
/// `rise + fade` frames have passed, never decreasing while rising and never
/// increasing while falling.
pub proof fn lemma_brightness_curve(c: int, rise: int, fade: int, e1: int, e2: int)
    requires
        0 <= c,
        0 <= rise,
        0 <= fade,
        0 <= e1 <= e2,
    ensures
        rise > 0 ==> scaled_channel(c, 0, rise, fade) == 0,
        fade > 0 ==> scaled_channel(c, rise, rise, fade) == c,
        scaled_channel(c, rise + fade, rise, fade) == 0,
        e2 < rise || (e2 == rise && fade > 0) ==> scaled_channel(c, e1, rise, fade)
            <= scaled_channel(c, e2, rise, fade),
        rise <= e1 ==> scaled_channel(c, e2, rise, fade) <= scaled_channel(c, e1, rise, fade),
{
    if rise > 0 {
        assert(c * 0 == 0);
    }
    if fade > 0 {
        assert(c * (rise + fade - rise) == c * fade);
        lemma_div_by_multiple(c, fade);
    }
    if e2 < rise || (e2 == rise && fade > 0) {
        if e2 < rise {
            lemma_fraction_ordered(c, e1, e2, rise);
        } else if e1 < rise {
            lemma_fraction_at_most(c, e1, rise);
            assert(c * (rise + fade - e2) == c * fade);
            lemma_div_by_multiple(c, fade);
        }
    }
    if rise <= e1 {
        lemma_scaled_channel_bounded(c, e2, rise, fade);
        if e2 < rise + fade {
            lemma_fraction_ordered(c, rise + fade - e2, rise + fade - e1, fade);
        }
    }
}

/// One channel dimmed to the brightness at `elapsed`.
pub fn scale_channel(c: u8, elapsed: u64, rise: u32, fade: u32) -> (r: u8)
    ensures
        r as int == scaled_channel(c as int, elapsed as int, rise as int, fade as int),
{
    proof {
        lemma_scaled_channel_bounded(c as int, elapsed as int, rise as int, fade as int);
    }
    let rise64 = rise as u64;
    let fade64 = fade as u64;
    if elapsed < rise64 {
        proof {
            assert((c as int) * (elapsed as int) <= 255 * (rise as int)) by (nonlinear_arith)
                requires
                    c <= 255,
                    elapsed < rise,
            ;
        }
        ((c as u64) * elapsed / rise64) as u8
    } else if elapsed < rise64 + fade64 {
        let left: u64 = rise64 + fade64 - elapsed;
        proof {
            assert((c as int) * (left as int) <= 255 * (fade as int)) by (nonlinear_arith)
                requires
                    c <= 255,
                    left <= fade,
            ;
        }
        ((c as u64) * left / fade64) as u8
    } else {
        0
    }
}

/// A glow color dimmed channel by channel to the brightness at `elapsed`.
pub fn dim_color(glow: RGB, elapsed: u64, rise: u32, fade: u32) -> (r: RGB)
    ensures
        r == dimmed(glow, elapsed as int, rise as int, fade as int),
        r.red <= glow.red,
        r.green <= glow.green,
        r.blue <= glow.blue,
{
    proof {
        lemma_scaled_channel_bounded(glow.red as int, elapsed as int, rise as int, fade as int);
        lemma_scaled_channel_bounded(glow.green as int, elapsed as int, rise as int, fade as int);
        lemma_scaled_channel_bounded(glow.blue as int, elapsed as int, rise as int, fade as int);
    }
    RGB {
        red: scale_channel(glow.red, elapsed, rise, fade),
        green: scale_channel(glow.green, elapsed, rise, fade),
        blue: scale_channel(glow.blue, elapsed, rise, fade),
    }
}

} // verus!
