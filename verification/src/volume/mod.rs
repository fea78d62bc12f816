//! Volumes, how a pixel is taken from them, and how they are painted.

pub mod draw;
pub mod face_index;
pub mod generic;
pub mod grid500;
pub mod image;
pub mod layers;
pub mod obj;
pub mod overlay;
pub mod ppm;
pub mod raster;
pub mod rgb;
pub mod tile;
pub mod tile_cache;
pub mod transform;

use vstd::prelude::*;

verus! {

/// How the grey values of a volume are turned into pixels.
#[derive(Clone, Copy, PartialEq, Eq, Structural)]
pub struct DrawingConfig {
    pub enable_filters: bool,
    pub threshold_min: u8,
    pub threshold_max: u8,
    pub quant: u8,
    pub mask_shift: u8,
    pub draw_xyz_outlines: bool,
    pub draw_outline_vertices: bool,
}

/// A byte whose upper `quant` bits are set. Anything but 1 to 7 stands for all bits.
pub open spec fn quant_mask(quant: u8) -> u8 {
    if quant == 7 {
        0xfe
    } else if quant == 6 {
        0xfc
    } else if quant == 5 {
        0xf8
    } else if quant == 4 {
        0xf0
    } else if quant == 3 {
        0xe0
    } else if quant == 2 {
        0xc0
    } else if quant == 1 {
        0x80
    } else {
        0xff
    }
}

impl DrawingConfig {
    /// Filters are switched on and at least one of them changes something.
    pub open spec fn filtering(&self) -> bool {
        self.enable_filters && (self.threshold_min > 0 || self.threshold_max > 0 || self.quant < 8
            || self.mask_shift > 0)
    }

    /// The bits of a grey value that are shown.
    pub open spec fn mask(&self) -> u8 {
        quant_mask(self.quant) >> self.mask_shift
    }

    /// The settings that the filters can work with: the thresholds leave a range of values, and
    /// the mask keeps a bit.
    pub open spec fn usable(&self) -> bool {
        &&& self.mask_shift < 8
        &&& self.filtering() ==> self.threshold_min + self.threshold_max < 255
    }

    /// The values from `threshold_min` to 255 - `threshold_max` stretched to the whole range.
    pub open spec fn stretched(&self, value: u8) -> u8 {
        let above = if value > self.threshold_min { value - self.threshold_min } else { 0 };
        let wide = above * 255 / (255 - (self.threshold_min + self.threshold_max));
        if wide < 255 {
            wide as u8
        } else {
            255
        }
    }

    /// The grey value that is painted for a voxel: its stretched value, of which the bits under
    /// the mask are scaled so that all of them together are white.
    pub open spec fn shown(&self, value: u8) -> u8 {
        if self.filtering() {
            ((self.stretched(value) & self.mask()) as int * 255 / (self.mask() as int)) as u8
        } else {
            value
        }
    }

    pub fn filters_active(&self) -> (active: bool)
        ensures
            active == self.filtering(),
    {
        self.enable_filters && (self.threshold_min > 0 || self.threshold_max > 0 || self.quant < 8
            || self.mask_shift > 0)
    }

    pub fn bit_mask(&self) -> (mask: u8)
        requires
            self.mask_shift < 8,
        ensures
            mask == self.mask(),
            mask != 0,
    {
        let upper: u8 = match self.quant {
            8 => 0xff,
            7 => 0xfe,
            6 => 0xfc,
            5 => 0xf8,
            4 => 0xf0,
            3 => 0xe0,
            2 => 0xc0,
            1 => 0x80,
            _ => 0xff,
        };
        proof {
            mask_is_not_empty(*self);
        }
        upper >> self.mask_shift
    }

    /// The grey value that is painted for a voxel.
    pub fn filter(&self, value: u8) -> (gray: u8)
        requires
            self.usable(),
        ensures
            gray == self.shown(value),
    {
        if self.filters_active() {
            let mask: u8 = self.bit_mask();
            let above: i32 = if value > self.threshold_min {
                value as i32 - self.threshold_min as i32
            } else {
                0
            };
            let range: i32 = 255 - (self.threshold_min as i32 + self.threshold_max as i32);
            let wide: i32 = above * 255 / range;
            proof {
                vstd::arithmetic::div_mod::lemma_div_pos_is_pos(above * 255, range as int);
            }
            let stretched: u8 = if wide < 255 {
                wide as u8
            } else {
                255
            };
            let shown: u8 = stretched & mask;
            proof {
                assert(shown <= mask) by (bit_vector)
                    requires
                        shown == stretched & mask,
                ;
                assert(shown as int * 255 / (mask as int) <= 255) by (nonlinear_arith)
                    requires
                        0 <= shown as int <= mask as int,
                        mask > 0,
                ;
                vstd::arithmetic::div_mod::lemma_div_pos_is_pos(shown * 255, mask as int);
            }
            (shown as u32 * 255 / mask as u32) as u8
        } else {
            value
        }
    }
}

/// Of a bit depth of `quant`, the upper `quant` bits are shown, or, with a shift, as many bits that
/// stand so much lower; any other bit depth stands for all bits.
pub proof fn masks_hold_the_selected_bits(config: DrawingConfig, bit: u8)
    requires
        config.mask_shift < 8,
        bit < 8,
    ensures
        1 <= config.quant <= 8 ==> (config.mask() & (1u8 << bit) != 0 <==> 8 <= bit + config.mask_shift
            + config.quant && bit + config.mask_shift < 8),
        !(1 <= config.quant <= 8) ==> (config.mask() & (1u8 << bit) != 0 <==> bit + config.mask_shift < 8),
{
    let (q, s, m) = (config.quant, config.mask_shift, quant_mask(config.quant));
    if 1 <= q <= 8 {
        assert((m >> s) & (1u8 << bit) != 0 <==> 8 <= bit + s + q && bit + s < 8) by (bit_vector)
            requires
                s < 8,
                bit < 8,
                1 <= q <= 8,
                q == 8 ==> m == 0xff,
                q == 7 ==> m == 0xfe,
                q == 6 ==> m == 0xfc,
                q == 5 ==> m == 0xf8,
                q == 4 ==> m == 0xf0,
                q == 3 ==> m == 0xe0,
                q == 2 ==> m == 0xc0,
                q == 1 ==> m == 0x80,
        ;
    } else {
        assert((m >> s) & (1u8 << bit) != 0 <==> bit + s < 8) by (bit_vector)
            requires
                s < 8,
                bit < 8,
                m == 0xff,
        ;
    }
}

/// With a bit depth of `quant`, voxels that agree in the upper `quant` bits look the same; so at
/// most 2 to the power of `quant` grey values are shown.
pub proof fn lower_bits_do_not_show(config: DrawingConfig, a: u8, b: u8)
    requires
        config.enable_filters,
        config.threshold_min == 0,
        config.threshold_max == 0,
        config.mask_shift == 0,
        1 <= config.quant <= 8,
        a >> (8 - config.quant) as u8 == b >> (8 - config.quant) as u8,
    ensures
        config.shown(a) == config.shown(b),
{
    let (q, m) = (config.quant, quant_mask(config.quant));
    let d: u8 = (8 - q) as u8;
    thresholds_stretch_the_values(config, a);
    thresholds_stretch_the_values(config, b);
    if q == 8 {
        assert(a == b) by (bit_vector)
            requires
                a >> 0u8 == b >> 0u8,
        ;
    }
    assert(m >> 0u8 == m) by (bit_vector);
    assert(a & m == b & m) by (bit_vector)
        requires
            1 <= q <= 8,
            d == 8 - q,
            a >> d == b >> d,
            q == 8 ==> m == 0xff,
            q == 7 ==> m == 0xfe,
            q == 6 ==> m == 0xfc,
            q == 5 ==> m == 0xf8,
            q == 4 ==> m == 0xf0,
            q == 3 ==> m == 0xe0,
            q == 2 ==> m == 0xc0,
            q == 1 ==> m == 0x80,
    ;
}

/// The thresholds cut off as many values at the lower and at the upper end, and what is between is
/// spread evenly from 0 to 255, rounded down. Without thresholds a value stays what it is.
pub proof fn thresholds_stretch_the_values(config: DrawingConfig, value: u8)
    requires
        config.threshold_min + config.threshold_max < 255,
    ensures
        value <= config.threshold_min ==> config.stretched(value) == 0,
        value >= 255 - config.threshold_max ==> config.stretched(value) == 255,
        config.threshold_min <= value <= 255 - config.threshold_max ==> {
            let range = 255 - config.threshold_min - config.threshold_max;
            config.stretched(value) * range <= (value - config.threshold_min) * 255 < (config.stretched(
                value,
            ) + 1) * range
        },
        config.threshold_min == 0 && config.threshold_max == 0 ==> config.stretched(value) == value,
{
    let range = 255 - (config.threshold_min + config.threshold_max);
    let above = if value > config.threshold_min {
        value - config.threshold_min
    } else {
        0
    };
    let wide = above * 255 / range;
    assert(wide * range <= above * 255 < (wide + 1) * range && 0 <= wide) by (nonlinear_arith)
        requires
            wide == above * 255 / range,
            range > 0,
            above >= 0,
    ;
    if above >= range {
        assert(wide >= 255) by (nonlinear_arith)
            requires
                above * 255 < (wide + 1) * range,
                above >= range,
                range > 0,
        ;
    }
    if above <= range {
        assert(wide <= 255) by (nonlinear_arith)
            requires
                wide * range <= above * 255,
                above <= range,
                range > 0,
        ;
    }
    if above == 0 {
        assert(wide == 0) by (nonlinear_arith)
            requires
                wide * range <= above * 255,
                above == 0,
                range > 0,
                wide >= 0,
        ;
    }
    if range == 255 {
        assert(wide == above) by (nonlinear_arith)
            requires
                wide * range <= above * 255 < (wide + 1) * range,
                range == 255,
        ;
    }
}

/// The bits that are shown are scaled: their share of all shown bits is the share of white, rounded
/// down. Without filters a value stays what it is.
pub proof fn shown_bits_are_scaled_to_white(config: DrawingConfig, value: u8)
    requires
        config.usable(),
    ensures
        !config.enable_filters ==> config.shown(value) == value,
        config.enable_filters && config.quant >= 8 && config.mask_shift == 0 ==> config.shown(value)
            == config.stretched(value),
        config.enable_filters ==> {
            let bits = config.stretched(value) & config.mask();
            config.shown(value) * config.mask() <= bits * 255 < (config.shown(value) + 1) * config.mask()
        },
{
    let m = config.mask();
    let s = config.stretched(value);
    let upper = quant_mask(config.quant);
    if config.quant >= 8 && config.mask_shift == 0 {
        assert(upper >> 0u8 == 0xff && s & 0xff == s) by (bit_vector)
            requires
                upper == 0xff,
        ;
        assert(s as int * 255 / 255 == s);
    }
    if config.filtering() {
        mask_is_not_empty(config);
        let bits = s & m;
        assert(bits <= m) by (bit_vector)
            requires
                bits == s & m,
        ;
        let (n, d) = (bits as int, m as int);
        assert(0 <= n * 255 / d <= 255 && (n * 255 / d) * d <= n * 255 < (n * 255 / d + 1) * d)
            by (nonlinear_arith)
            requires
                0 <= n <= d,
                d > 0,
        ;
    } else if config.enable_filters {
        thresholds_stretch_the_values(config, value);
        assert(s & 0xff == s) by (bit_vector);
    }
}

/// Whatever bits are selected, at least one is shown.
pub proof fn mask_is_not_empty(config: DrawingConfig)
    requires
        config.mask_shift < 8,
    ensures
        config.mask() != 0,
{
    let upper = quant_mask(config.quant);
    let shift = config.mask_shift;
    assert(upper >> shift != 0) by (bit_vector)
        requires
            upper >= 0x80,
            shift < 8,
    ;
}

/// Black stays black, and a voxel at the upper end of the kept range is painted white.
pub proof fn filter_keeps_black_and_white(config: DrawingConfig, value: u8)
    requires
        config.usable(),
        config.filtering(),
    ensures
        value <= config.threshold_min ==> config.shown(value) == 0,
        value >= 255 - config.threshold_max ==> config.shown(value) == 255,
{
    mask_is_not_empty(config);
    let mask = config.mask();
    let stretched = config.stretched(value);
    let range = 255 - (config.threshold_min + config.threshold_max);
    if value <= config.threshold_min {
        assert(0int / range == 0) by (nonlinear_arith)
            requires
                range > 0,
        ;
        assert(0u8 & mask == 0) by (bit_vector);
    }
    if value >= 255 - config.threshold_max {
        let above = value - config.threshold_min;
        assert(above * 255 / range >= 255) by (nonlinear_arith)
            requires
                range > 0,
                above >= range,
        ;
        assert(255u8 & mask == mask) by (bit_vector);
        assert(mask as int * 255 / (mask as int) == 255) by (nonlinear_arith)
            requires
                mask > 0,
        ;
    }
}

/// A single bit plane is shown in black and white.
pub proof fn bit_planes_are_black_and_white(config: DrawingConfig, value: u8)
    requires
        config.usable(),
        config.filtering(),
        config.quant == 1,
    ensures
        config.shown(value) == 0 || config.shown(value) == 255,
{
    mask_is_not_empty(config);
    let shift = config.mask_shift;
    let mask = config.mask();
    let stretched = config.stretched(value);
    assert(stretched & mask == 0 || stretched & mask == mask) by (bit_vector)
        requires
            mask == 0x80u8 >> shift,
            shift < 8,
    ;
    assert(mask as int * 255 / (mask as int) == 255) by (nonlinear_arith)
        requires
            mask > 0,
    ;
}

/// A smaller bit depth and thresholds never paint a brighter voxel darker, unless lower bits are
/// shown in place of the upper ones.
pub proof fn filters_keep_the_order(config: DrawingConfig, a: u8, b: u8)
    requires
        config.usable(),
        config.mask_shift == 0,
        a <= b,
    ensures
        config.shown(a) <= config.shown(b),
{
    if config.filtering() {
        mask_is_not_empty(config);
        let mask = config.mask();
        let upper = quant_mask(config.quant);
        let range = 255 - (config.threshold_min + config.threshold_max);
        let above_a = if a > config.threshold_min { a - config.threshold_min } else { 0 };
        let above_b = if b > config.threshold_min { b - config.threshold_min } else { 0 };
        assert(0 <= above_a * 255 / range <= above_b * 255 / range) by (nonlinear_arith)
            requires
                range > 0,
                0 <= above_a <= above_b,
        ;
        let s = config.stretched(a);
        let t = config.stretched(b);
        assert(s & mask <= t & mask && t & mask <= mask) by (bit_vector)
            requires
                mask == upper >> 0u8,
                s <= t,
                upper == 0xff || upper == 0xfe || upper == 0xfc || upper == 0xf8 || upper == 0xf0
                    || upper == 0xe0 || upper == 0xc0 || upper == 0x80,
        ;
        let x = (s & mask) as int;
        let y = (t & mask) as int;
        assert(0 <= x * 255 / (mask as int) <= y * 255 / (mask as int) <= 255) by (nonlinear_arith)
            requires
                0 <= x <= y <= mask as int,
                mask > 0,
        ;
    }
}

impl Default for DrawingConfig {
    fn default() -> (config: Self)
        ensures
            config == (DrawingConfig {
                enable_filters: false,
                threshold_min: 0,
                threshold_max: 0,
                quant: 0xff,
                mask_shift: 0,
                draw_xyz_outlines: false,
                draw_outline_vertices: false,
            }),
    {
        DrawingConfig {
            enable_filters: false,
            threshold_min: 0,
            threshold_max: 0,
            quant: 0xff,
            mask_shift: 0,
            draw_xyz_outlines: false,
            draw_outline_vertices: false,
        }
    }
}

} // verus!
