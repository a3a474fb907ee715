//! The size-to-color mapping.
//!
//! A byte count is mapped onto hue, saturation and brightness so that small
//! entries render near-white and cold while very large ones render hot and
//! saturated, with the transition on a logarithmic scale — sizes differ by
//! orders of magnitude, so a linear map would leave all but the largest few
//! entries indistinguishable. All arithmetic is fixed-point: hue in
//! thousandths of a degree, saturation and brightness in thousandths.

use vstd::prelude::*;

use vstd::arithmetic::power2::{
    lemma2_to64, lemma2_to64_rest, lemma_pow2_strictly_increases, lemma_pow2_unfold, pow2,
};

verus! {

/// The base (cold) hue, in thousandths of a degree.
pub const BLUE_HUE: u32 = 210000;

/// Below this size the hue stays at the cold end.
pub const HUE_MIN_SIZE: u64 = 1048576;

/// At and above this size the hue saturates at the hot end.
pub const HUE_MAX_SIZE: u64 = 107374182400;

/// The size at which saturation reaches its ceiling.
pub const SATURATION_MAX_SIZE: u64 = 524288000;

/// The span over which brightness falls off past `HUE_MAX_SIZE`.
pub const VALUE_MAX_SIZE: u64 = 214748364800;

/// The brightness floor, in thousandths, so large entries stay legible.
pub const LOWEST_VALUE: u32 = 550;

/// The power of two `den * 2^k` that lands just below `num`, grown from
/// `den` (meaningful for `1 <= den <= num`).
pub open spec fn octave_base(num: int, den: int) -> int
    decreases num - den when 1 <= den <= num
{
    if 2 * den > num {
        den
    } else {
        octave_base(num, 2 * den)
    }
}

/// How many doublings `octave_base` takes.
pub open spec fn octave_count(num: int, den: int) -> int
    decreases num - den when 1 <= den <= num
{
    if 2 * den > num {
        0
    } else {
        1 + octave_count(num, 2 * den)
    }
}

/// The base-two logarithm of `num / den` in thousandths: whole octaves,
/// plus a linear interpolation within the last octave.
pub open spec fn spec_log2_milli(num: int, den: int) -> int {
    1000 * octave_count(num, den) + (num - octave_base(num, den)) * 1000 / octave_base(num, den)
}

/// Computes the fixed-point base-two logarithm of `num / den`.
fn log2_milli(num: u64, den: u64) -> (r: u64)
    requires
        1 <= den <= num,
    ensures
        r as int == spec_log2_milli(num as int, den as int),
        r < 64000,
        2 * den <= num ==> r >= 1000,
{
    let mut d = den;
    let mut k: u64 = 0;
    proof {
        lemma2_to64();
    }
    while d <= num / 2
        invariant
            1 <= d <= num,
            1 <= den <= num,
            d as int == den as int * pow2(k as nat),
            k == 0 ==> d == den,
            octave_base(num as int, den as int) == octave_base(num as int, d as int),
            octave_count(num as int, den as int) == k + octave_count(num as int, d as int),
            k < 64,
        decreases num - d,
    {
        proof {
            assert(2 * (d as int) <= num as int);
            lemma_pow2_unfold((k + 1) as nat);
            assert(2 * (den as int * pow2(k as nat)) == den as int * (2 * pow2(k as nat)))
                by (nonlinear_arith);
            if k + 1 >= 64 {
                if k + 1 > 64 {
                    lemma_pow2_strictly_increases(64, (k + 1) as nat);
                }
                lemma2_to64_rest();
                assert(den as int * pow2((k + 1) as nat) >= pow2((k + 1) as nat)) by (
                nonlinear_arith)
                    requires
                        den >= 1,
                        pow2((k + 1) as nat) >= 0,
                ;
            }
        }
        d = d * 2;
        k = k + 1;
    }
    proof {
        assert(2 * (d as int) > num as int);
        assert(octave_base(num as int, d as int) == d as int);
        assert(octave_count(num as int, d as int) == 0);
    }
    proof {
        assert(((num - d) as int) * 1000 < (d as int) * 1000) by (nonlinear_arith)
            requires
                ((num - d) as int) < (d as int),
        ;
        assert(((num - d) as int) * 1000 / (d as int) < 1000) by (nonlinear_arith)
            requires
                ((num - d) as int) * 1000 < (d as int) * 1000,
                (d as int) >= 1,
        ;
        assert(((num - d) as int) * 1000 / (d as int) >= 0) by (nonlinear_arith)
            requires
                ((num - d) as int) >= 0,
                (d as int) >= 1,
        ;
    }
    let frac = (((num - d) as u128) * 1000 / (d as u128)) as u64;
    k * 1000 + frac
}

/// The hue for a size, in thousandths of a degree: the cold `base_hue` at
/// and below `hue_min`, the hot end (zero) at and above `hue_max`, and in
/// between a logarithmic decay of the cold hue.
pub open spec fn spec_calc_hue(size: int, hue_min: int, hue_max: int, base_hue: int) -> int {
    if size <= hue_min {
        base_hue
    } else if size >= hue_max {
        0
    } else {
        let t = (size - hue_min) * 1000 / (hue_max - hue_min);
        let scale = if t <= 1 {
            1000
        } else {
            let lg = spec_log2_milli(t, 1) * 1000 / spec_log2_milli(1000, 1);
            if lg >= 1000 {
                0
            } else {
                1000 - lg
            }
        };
        base_hue * scale / 1000
    }
}

pub fn calc_hue(size: u64, hue_min: u64, hue_max: u64, base_hue: u32) -> (r: u32)
    requires
        hue_min < hue_max,
        base_hue <= 360000,
    ensures
        r as int == spec_calc_hue(size as int, hue_min as int, hue_max as int, base_hue as int),
        r <= base_hue,
{
    if size <= hue_min {
        return base_hue;
    }
    if size >= hue_max {
        return 0;
    }
    let range = hue_max - hue_min;
    proof {
        assert(((size - hue_min) as int) * 1000 < (range as int) * 1000) by (nonlinear_arith)
            requires
                ((size - hue_min) as int) < (range as int),
        ;
        assert(((size - hue_min) as int) * 1000 / (range as int) < 1000) by (nonlinear_arith)
            requires
                ((size - hue_min) as int) * 1000 < (range as int) * 1000,
                (range as int) >= 1,
        ;
        assert(((size - hue_min) as int) * 1000 / (range as int) >= 0) by (nonlinear_arith)
            requires
                ((size - hue_min) as int) >= 0,
                (range as int) >= 1,
        ;
    }
    let t = (((size - hue_min) as u128) * 1000 / (range as u128)) as u64;
    let scale: u64 = if t <= 1 {
        1000
    } else {
        let lg_t = log2_milli(t, 1);
        let lg_full = log2_milli(1000, 1);
        let lg = lg_t * 1000 / lg_full;
        if lg >= 1000 {
            0
        } else {
            1000 - lg
        }
    };
    proof {
        assert((base_hue as int) * (scale as int) <= (base_hue as int) * 1000) by (nonlinear_arith)
            requires
                (scale as int) <= 1000,
                (base_hue as int) >= 0,
        ;
        assert((base_hue as int) * (scale as int) >= 0) by (nonlinear_arith)
            requires
                (scale as int) >= 0,
                (base_hue as int) >= 0,
        ;
        assert((base_hue as int) * (scale as int) / 1000 <= base_hue as int);
    }
    let r = ((base_hue as u64) * scale / 1000) as u32;
    r
}

/// The saturation for a size, in thousandths: zero at and below a
/// thousandth of `saturation_max`, full at and above it, logarithmic in
/// between.
pub open spec fn spec_calc_saturation(size: int, saturation_max: int) -> int {
    let t = size * 1000 / saturation_max;
    if t <= 1 {
        0
    } else if t >= 1000 {
        1000
    } else {
        let lg = spec_log2_milli(t, 1) * 1000 / spec_log2_milli(1000, 1);
        if lg >= 1000 {
            1000
        } else {
            lg
        }
    }
}

pub fn calc_saturation(size: u64, saturation_max: u64) -> (r: u32)
    requires
        saturation_max >= 1,
    ensures
        r as int == spec_calc_saturation(size as int, saturation_max as int),
        r <= 1000,
{
    let t128 = (size as u128) * 1000 / (saturation_max as u128);
    if t128 <= 1 {
        0
    } else if t128 >= 1000 {
        1000
    } else {
        let t = t128 as u64;
        let lg_t = log2_milli(t, 1);
        let lg_full = log2_milli(1000, 1);
        let lg = lg_t * 1000 / lg_full;
        if lg >= 1000 {
            1000
        } else {
            lg as u32
        }
    }
}

/// The brightness for a size, in thousandths: full below `value_min`,
/// falling linearly over the next `value_max` bytes, never below
/// `lowest_value`.
pub open spec fn spec_calc_value(size: int, value_min: int, value_max: int, lowest_value: int) -> int {
    let excess = if size <= value_min {
        0
    } else if size - value_min > value_max {
        value_max
    } else {
        size - value_min
    };
    let v = 1000 - excess * 1000 / value_max;
    if v < lowest_value {
        lowest_value
    } else {
        v
    }
}

pub fn calc_value(size: u64, value_min: u64, value_max: u64, lowest_value: u32) -> (r: u32)
    requires
        value_max >= 1,
        lowest_value <= 1000,
    ensures
        r as int == spec_calc_value(
            size as int,
            value_min as int,
            value_max as int,
            lowest_value as int,
        ),
        r <= 1000,
{
    let excess: u64 = if size <= value_min {
        0
    } else if size - value_min > value_max {
        value_max
    } else {
        size - value_min
    };
    proof {
        assert((excess as int) * 1000 <= (value_max as int) * 1000) by (nonlinear_arith)
            requires
                (excess as int) <= (value_max as int),
        ;
        assert((excess as int) * 1000 / (value_max as int) <= 1000) by (nonlinear_arith)
            requires
                (excess as int) * 1000 <= (value_max as int) * 1000,
                (value_max as int) >= 1,
        ;
        assert((excess as int) * 1000 / (value_max as int) >= 0) by (nonlinear_arith)
            requires
                (excess as int) >= 0,
                (value_max as int) >= 1,
        ;
    }
    let scaled = ((excess as u128) * 1000 / (value_max as u128)) as u64;
    let v = 1000 - scaled as u32;
    if v < lowest_value {
        lowest_value
    } else {
        v
    }
}

/// The full size-to-HSV mapping with the fixed thresholds.
pub open spec fn spec_size_to_hsv(size: int) -> (int, int, int) {
    (
        spec_calc_hue(size, HUE_MIN_SIZE as int, HUE_MAX_SIZE as int, BLUE_HUE as int),
        spec_calc_saturation(size, SATURATION_MAX_SIZE as int),
        spec_calc_value(size, HUE_MAX_SIZE as int, VALUE_MAX_SIZE as int, LOWEST_VALUE as int),
    )
}

pub fn size_to_hsv(size: u64) -> (r: (u32, u32, u32))
    ensures
        (r.0 as int, r.1 as int, r.2 as int) == spec_size_to_hsv(size as int),
        r.0 <= 360000,
        r.1 <= 1000,
        r.2 <= 1000,
{
    (
        calc_hue(size, HUE_MIN_SIZE, HUE_MAX_SIZE, BLUE_HUE),
        calc_saturation(size, SATURATION_MAX_SIZE),
        calc_value(size, HUE_MAX_SIZE, VALUE_MAX_SIZE, LOWEST_VALUE),
    )
}

/// The standard six-sector HSV-to-RGB decomposition, carried out in
/// fixed-point arithmetic.
pub open spec fn spec_hsv_to_rgb(hue: int, saturation: int, value: int) -> (int, int, int) {
    let c = value * saturation / 1000;
    let hm = hue / 60;
    let md = hm % 2000;
    let dist = if md >= 1000 {
        md - 1000
    } else {
        1000 - md
    };
    let x = c * (1000 - dist) / 1000;
    let m = value - c;
    let sector = hm / 1000;
    let rgb = if sector == 0 {
        (c, x, 0)
    } else if sector == 1 {
        (x, c, 0)
    } else if sector == 2 {
        (0, c, x)
    } else if sector == 3 {
        (0, x, c)
    } else if sector == 4 {
        (x, 0, c)
    } else {
        (c, 0, x)
    };
    ((rgb.0 + m) * 255 / 1000, (rgb.1 + m) * 255 / 1000, (rgb.2 + m) * 255 / 1000)
}

/// Converts fixed-point HSV (hue in thousandths of a degree, saturation
/// and value in thousandths) to an RGB triple. Out-of-range inputs are a
/// caller error and are ruled out up front.
pub fn hsv_to_rgb(hue: u32, saturation: u32, value: u32) -> (r: (u8, u8, u8))
    requires
        hue <= 360000,
        saturation <= 1000,
        value <= 1000,
    ensures
        (r.0 as int, r.1 as int, r.2 as int) == spec_hsv_to_rgb(
            hue as int,
            saturation as int,
            value as int,
        ),
{
    proof {
        assert((value as int) * (saturation as int) <= 1000 * 1000) by (nonlinear_arith)
            requires
                (value as int) <= 1000,
                (saturation as int) <= 1000,
                (value as int) >= 0,
                (saturation as int) >= 0,
        ;
        assert((value as int) * (saturation as int) >= 0) by (nonlinear_arith)
            requires
                (value as int) >= 0,
                (saturation as int) >= 0,
        ;
        assert((value as int) * (saturation as int) / 1000 <= (value as int)) by (nonlinear_arith)
            requires
                (value as int) >= 0,
                (saturation as int) <= 1000,
                (saturation as int) >= 0,
        ;
    }
    let c = ((value as u64) * (saturation as u64) / 1000) as u32;
    let hm = hue / 60;
    let md = hm % 2000;
    let dist = if md >= 1000 {
        md - 1000
    } else {
        1000 - md
    };
    proof {
        assert((c as int) * ((1000 - dist) as int) <= (c as int) * 1000) by (nonlinear_arith)
            requires
                ((1000 - dist) as int) <= 1000,
                (c as int) >= 0,
                ((1000 - dist) as int) >= 0,
        ;
        assert((c as int) * ((1000 - dist) as int) >= 0) by (nonlinear_arith)
            requires
                (c as int) >= 0,
                ((1000 - dist) as int) >= 0,
        ;
        assert((c as int) * ((1000 - dist) as int) / 1000 <= (c as int)) by (nonlinear_arith)
            requires
                (c as int) >= 0,
                ((1000 - dist) as int) <= 1000,
                ((1000 - dist) as int) >= 0,
        ;
    }
    let x = ((c as u64) * ((1000 - dist) as u64) / 1000) as u32;
    let m = value - c;
    let sector = hm / 1000;
    let (cr, cg, cb): (u32, u32, u32) = if sector == 0 {
        (c, x, 0)
    } else if sector == 1 {
        (x, c, 0)
    } else if sector == 2 {
        (0, c, x)
    } else if sector == 3 {
        (0, x, c)
    } else if sector == 4 {
        (x, 0, c)
    } else {
        (c, 0, x)
    };
    let r0 = ((cr + m) as u64 * 255 / 1000) as u8;
    let r1 = ((cg + m) as u64 * 255 / 1000) as u8;
    let r2 = ((cb + m) as u64 * 255 / 1000) as u8;
    (r0, r1, r2)
}

/// The full size-to-color mapping: size onto fixed-point HSV, HSV onto an
/// RGB triple.
pub open spec fn spec_convert_file_size_to_color(size: int) -> (int, int, int) {
    let hsv = spec_size_to_hsv(size);
    spec_hsv_to_rgb(hsv.0, hsv.1, hsv.2)
}

/// Maps a byte count to the RGB triple it renders with.
pub fn convert_file_size_to_color(size: u64) -> (r: (u8, u8, u8))
    ensures
        (r.0 as int, r.1 as int, r.2 as int) == spec_convert_file_size_to_color(size as int),
{
    let (h, s, v) = size_to_hsv(size);
    hsv_to_rgb(h, s, v)
}

} // verus!
