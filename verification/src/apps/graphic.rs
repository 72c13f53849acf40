use vstd::prelude::*;

verus! {

/// The 8-bit channel of color `c` that starts at bit `shift`.
pub open spec fn channel(c: u32, shift: u32) -> u32 {
    (c >> shift) & 0xff
}

/// The weighted sum of one channel of `l` and `r` at position `x` of `xr`.
pub open spec fn channel_sum(x: u32, xr: u32, l: u32, r: u32, shift: u32) -> int {
    channel(l, shift) * (xr - x) + channel(r, shift) * x
}

/// The sums of all three channels fit in 32 bits.
pub open spec fn lerp_fits(x: u32, xr: u32, l: u32, r: u32) -> bool {
    &&& x <= xr
    &&& channel_sum(x, xr, l, r, 16) <= u32::MAX
    &&& channel_sum(x, xr, l, r, 8) <= u32::MAX
    &&& channel_sum(x, xr, l, r, 0) <= u32::MAX
}

/// The color at `x` on a line of `xr` pixels from color `l` to color `r`: each
/// channel interpolated linearly and rounded down.
pub open spec fn lerp_spec(x: u32, xr: u32, l: u32, r: u32) -> u32 {
    if xr == 0 {
        l
    } else {
        let red = (channel_sum(x, xr, l, r, 16) / (xr as int)) as u32;
        let green = (channel_sum(x, xr, l, r, 8) / (xr as int)) as u32;
        let blue = (channel_sum(x, xr, l, r, 0) / (xr as int)) as u32;
        (red << 16u32) | (green << 8u32) | blue
    }
}

proof fn lemma_channel_bound(c: u32, shift: u32)
    requires
        shift == 0 || shift == 8 || shift == 16,
    ensures
        channel(c, shift) <= 255,
{
    assert((c >> shift) & 0xffu32 <= 255) by (bit_vector);
}

/// The weighted mean of a channel is again a channel value.
proof fn lemma_mean_bound(a: int, b: int, x: int, xr: int)
    requires
        0 <= a <= 255,
        0 <= b <= 255,
        0 <= x <= xr,
        xr > 0,
    ensures
        0 <= (a * (xr - x) + b * x) / xr <= 255,
{
    assert(a * (xr - x) + b * x <= 255 * xr) by (nonlinear_arith)
        requires
            0 <= a <= 255,
            0 <= b <= 255,
            0 <= x <= xr,
    ;
    assert(0 <= a * (xr - x) + b * x) by (nonlinear_arith)
        requires
            0 <= a,
            0 <= b,
            0 <= x <= xr,
    ;
    assert((a * (xr - x) + b * x) / xr <= 255) by (nonlinear_arith)
        requires
            a * (xr - x) + b * x <= 255 * xr,
            xr > 0,
    ;
    assert(0 <= (a * (xr - x) + b * x) / xr) by (nonlinear_arith)
        requires
            0 <= a * (xr - x) + b * x,
            xr > 0,
    ;
}

/// The color at `x` on a line of `xr` pixels from color `l` to color `r`.
pub fn lerp_color_1d(x: u32, xr: u32, l: u32, r: u32) -> (c: u32)
    requires
        xr == 0 || lerp_fits(x, xr, l, r),
    ensures
        c == lerp_spec(x, xr, l, r),
{
    if xr == 0 {
        return l;
    }
    proof {
        lemma_channel_bound(l, 16);
        lemma_channel_bound(r, 16);
        lemma_channel_bound(l, 8);
        lemma_channel_bound(r, 8);
        lemma_channel_bound(l, 0);
        lemma_channel_bound(r, 0);
        assert(channel(l, 16) * (xr - x) <= channel_sum(x, xr, l, r, 16)) by (nonlinear_arith)
            requires
                channel(r, 16) * x >= 0,
                channel_sum(x, xr, l, r, 16) == channel(l, 16) * (xr - x) + channel(r, 16) * x,
        ;
        assert(channel(l, 8) * (xr - x) <= channel_sum(x, xr, l, r, 8)) by (nonlinear_arith)
            requires
                channel(r, 8) * x >= 0,
                channel_sum(x, xr, l, r, 8) == channel(l, 8) * (xr - x) + channel(r, 8) * x,
        ;
        assert(channel(l, 0) * (xr - x) <= channel_sum(x, xr, l, r, 0)) by (nonlinear_arith)
            requires
                channel(r, 0) * x >= 0,
                channel_sum(x, xr, l, r, 0) == channel(l, 0) * (xr - x) + channel(r, 0) * x,
        ;
        assert(channel(r, 16) * x >= 0 && channel(r, 8) * x >= 0 && channel(r, 0) * x >= 0) by (
        nonlinear_arith);
        assert(channel(l, 16) * (xr - x) >= 0 && channel(l, 8) * (xr - x) >= 0 && channel(l, 0) * (xr
            - x) >= 0) by (nonlinear_arith)
            requires
                x <= xr,
        ;
        lemma_mean_bound(channel(l, 16) as int, channel(r, 16) as int, x as int, xr as int);
        lemma_mean_bound(channel(l, 8) as int, channel(r, 8) as int, x as int, xr as int);
        lemma_mean_bound(channel(l, 0) as int, channel(r, 0) as int, x as int, xr as int);
    }
    assert(l & 0xff == (l >> 0u32) & 0xff) by (bit_vector);
    assert(r & 0xff == (r >> 0u32) & 0xff) by (bit_vector);
    let red = (((l >> 16) & 0xff) * (xr - x) + ((r >> 16) & 0xff) * x) / xr;
    let green = (((l >> 8) & 0xff) * (xr - x) + ((r >> 8) & 0xff) * x) / xr;
    let blue = ((l & 0xff) * (xr - x) + (r & 0xff) * x) / xr;
    (red << 16) | (green << 8) | blue
}

/// The color at (`x`, `y`) of a `xres` by `yres` area whose corners have the
/// colors `lt` (left top), `rt`, `lb` and `rb`: interpolated along both rows, then
/// between them.
pub open spec fn interpolate_2d_spec(
    x: u32,
    y: u32,
    xres: u32,
    yres: u32,
    lt: u32,
    rt: u32,
    lb: u32,
    rb: u32,
) -> u32 {
    lerp_spec(y, yres, lerp_spec(x, xres, lt, rt), lerp_spec(x, xres, lb, rb))
}

/// The color at (`x`, `y`) of a `xres` by `yres` area with the given corner colors.
pub fn linear_interpolate_2d(
    x: u32,
    y: u32,
    xres: u32,
    yres: u32,
    lt: u32,
    rt: u32,
    lb: u32,
    rb: u32,
) -> (c: u32)
    requires
        xres == 0 || lerp_fits(x, xres, lt, rt),
        xres == 0 || lerp_fits(x, xres, lb, rb),
        yres == 0 || lerp_fits(y, yres, lerp_spec(x, xres, lt, rt), lerp_spec(x, xres, lb, rb)),
    ensures
        c == interpolate_2d_spec(x, y, xres, yres, lt, rt, lb, rb),
{
    lerp_color_1d(y, yres, lerp_color_1d(x, xres, lt, rt), lerp_color_1d(x, xres, lb, rb))
}

/// On a line of at most 2^24 pixels, no channel sum overflows: any colors can be
/// interpolated at any point of the line.
pub proof fn law_lerp_fits_short_lines(x: u32, xr: u32, l: u32, r: u32)
    requires
        x <= xr,
        xr <= 0x100_0000,
    ensures
        lerp_fits(x, xr, l, r),
{
    lemma_channel_bound(l, 16);
    lemma_channel_bound(r, 16);
    lemma_channel_bound(l, 8);
    lemma_channel_bound(r, 8);
    lemma_channel_bound(l, 0);
    lemma_channel_bound(r, 0);
    assert forall|s: u32| s == 0 || s == 8 || s == 16 implies channel_sum(x, xr, l, r, s) <= u32::MAX by {
        lemma_channel_bound(l, s);
        lemma_channel_bound(r, s);
        let a = channel(l, s) as int;
        let b = channel(r, s) as int;
        assert(a * (xr - x) + b * x <= 255 * xr) by (nonlinear_arith)
            requires
                0 <= a <= 255,
                0 <= b <= 255,
                0 <= x <= xr,
        ;
    }
}

/// The ends of a line have the ends' colors, where the channels are exact.
pub proof fn law_lerp_ends(xr: u32, l: u32, r: u32)
    requires
        0 < xr <= 0x100_0000,
        l <= 0xff_ffff,
        r <= 0xff_ffff,
    ensures
        lerp_spec(0, xr, l, r) == l,
        lerp_spec(xr, xr, l, r) == r,
{
    lemma_channel_bound(l, 16);
    lemma_channel_bound(r, 16);
    lemma_channel_bound(l, 8);
    lemma_channel_bound(r, 8);
    lemma_channel_bound(l, 0);
    lemma_channel_bound(r, 0);
    let x = xr as int;
    assert(channel_sum(0, xr, l, r, 16) == channel(l, 16) * x) by (nonlinear_arith)
        requires
            channel_sum(0, xr, l, r, 16) == channel(l, 16) * (xr - 0) + channel(r, 16) * 0,
            x == xr,
    ;
    assert(channel_sum(0, xr, l, r, 8) == channel(l, 8) * x) by (nonlinear_arith)
        requires
            channel_sum(0, xr, l, r, 8) == channel(l, 8) * (xr - 0) + channel(r, 8) * 0,
            x == xr,
    ;
    assert(channel_sum(0, xr, l, r, 0) == channel(l, 0) * x) by (nonlinear_arith)
        requires
            channel_sum(0, xr, l, r, 0) == channel(l, 0) * (xr - 0) + channel(r, 0) * 0,
            x == xr,
    ;
    assert(channel_sum(xr, xr, l, r, 16) == channel(r, 16) * x) by (nonlinear_arith)
        requires
            channel_sum(xr, xr, l, r, 16) == channel(l, 16) * (xr - xr) + channel(r, 16) * xr,
            x == xr,
    ;
    assert(channel_sum(xr, xr, l, r, 8) == channel(r, 8) * x) by (nonlinear_arith)
        requires
            channel_sum(xr, xr, l, r, 8) == channel(l, 8) * (xr - xr) + channel(r, 8) * xr,
            x == xr,
    ;
    assert(channel_sum(xr, xr, l, r, 0) == channel(r, 0) * x) by (nonlinear_arith)
        requires
            channel_sum(xr, xr, l, r, 0) == channel(l, 0) * (xr - xr) + channel(r, 0) * xr,
            x == xr,
    ;
    let lr = channel(l, 16);
    let lg = channel(l, 8);
    let lb = channel(l, 0);
    let rr = channel(r, 16);
    let rg = channel(r, 8);
    let rb = channel(r, 0);
    assert((lr * x) / x == lr && (lg * x) / x == lg && (lb * x) / x == lb) by (nonlinear_arith)
        requires
            x > 0,
    ;
    assert((rr * x) / x == rr && (rg * x) / x == rg && (rb * x) / x == rb) by (nonlinear_arith)
        requires
            x > 0,
    ;
    assert(((((l >> 16u32) & 0xffu32) << 16u32) | (((l >> 8u32) & 0xffu32) << 8u32) | ((l >> 0u32)
        & 0xffu32)) == l) by (bit_vector)
        requires
            l <= 0xff_ffff,
    ;
    assert(((((r >> 16u32) & 0xffu32) << 16u32) | (((r >> 8u32) & 0xffu32) << 8u32) | ((r >> 0u32)
        & 0xffu32)) == r) by (bit_vector)
        requires
            r <= 0xff_ffff,
    ;
}

} // verus!
