//! The scanline corruptor: the driver that walks the rows of a validated
//! buffer and applies the transform catalogue.
//!
//! One invocation draws a corruption rate from the options' rate window,
//! then visits every row in order. Each row draws its eligibility; an
//! eligible row draws one decision per catalogue entry, in the fixed order
//! pixelate, line shift, reverse, flip, channel swap, channel shift, and a
//! selected transform is applied at once, so later transforms act on the
//! output of earlier ones. The exact draw sequence is part of the contract:
//! `spec_mosh` pins the output bytes and the final generator state as a
//! function of the input bytes, the options and the starting state, which
//! is what makes two runs from equal inputs byte-identical.

use crate::buffer::RasterBuffer;
use crate::buffer::channels;
use crate::buffer::lemma_stride_whole_bytes;
use crate::buffer::row_stride;
use crate::buffer::spec_channels;
use crate::options::OptionsConfig;
use crate::options::PROB_SCALE;
use crate::rng::DeterministicRng;
use crate::rng::advance;
use crate::rng::draw;
use crate::transforms::flip_row;
use crate::transforms::pixelate_row;
use crate::transforms::reverse_row;
use crate::transforms::rotate_row;
use crate::transforms::row_of;
use crate::transforms::shift_channel_row;
use crate::transforms::spec_pixelate_row;
use crate::transforms::spec_reverse_row;
use crate::transforms::spec_rotate_row;
use crate::transforms::spec_shift_row;
use crate::transforms::spec_swap_row;
use crate::transforms::swap_channels_row;
use crate::transforms::with_row;
use vstd::arithmetic::mul::lemma_mul_inequality;
use vstd::arithmetic::mul::lemma_mul_is_distributive_add_other_way;
use vstd::prelude::*;

verus! {

/// The chance, in thousandths, with which the pixelation entry applies to
/// an eligible row. Pixelation has no chance field of its own: it applies
/// to every eligible row exactly when its block size is above 1 (a block of
/// 1 would be the identity).
pub open spec fn pixelate_chance(o: OptionsConfig) -> u16 {
    if o.pixelation > 1 {
        PROB_SCALE
    } else {
        0
    }
}

/// One catalogue decision: the draw from state `s`, reduced to thousandths,
/// falls below `chance`.
pub open spec fn spec_selected(s: u64, chance: u16) -> bool {
    draw(s) % (PROB_SCALE as u64) < chance as u64
}

/// The corruption rate of one invocation: a percentage drawn from the
/// inclusive window `[min_rate, max_rate]`, from state `s0`.
pub open spec fn spec_rate(o: OptionsConfig, s0: u64) -> int {
    o.min_rate + (draw(s0) as int) % (o.max_rate - o.min_rate + 1)
}

/// The pixelate entry: one decision draw; when selected, the row is
/// pixelated with the options' block size.
pub open spec fn spec_step_pixelate(
    buf: Seq<u8>,
    s: u64,
    start: int,
    stride: int,
    c: int,
    sb: int,
    w: int,
    o: OptionsConfig,
) -> (Seq<u8>, u64) {
    let sel = spec_selected(s, pixelate_chance(o));
    let s2 = advance(s);
    if sel {
        (with_row(
            buf,
            start,
            spec_pixelate_row(row_of(buf, start, stride), c, sb, o.pixelation as int, w),
        ), s2)
    } else {
        (buf, s2)
    }
}

/// The line-shift entry: one decision draw; when selected on a row of at
/// least 2 bytes, one more draw picks a rotation offset in
/// `[1, stride - 1]` and the row is rotated. A 1-byte row has no rotation
/// and spends no offset draw.
pub open spec fn spec_step_line_shift(
    buf: Seq<u8>,
    s: u64,
    start: int,
    stride: int,
    o: OptionsConfig,
) -> (Seq<u8>, u64) {
    let sel = spec_selected(s, o.line_shift);
    let s2 = advance(s);
    if sel && stride >= 2 {
        let k = 1 + (draw(s2) as int) % (stride - 1);
        (with_row(buf, start, spec_rotate_row(row_of(buf, start, stride), k)), advance(s2))
    } else {
        (buf, s2)
    }
}

/// The reverse entry: one decision draw; when selected, the row's bytes
/// are reversed.
pub open spec fn spec_step_reverse(
    buf: Seq<u8>,
    s: u64,
    start: int,
    stride: int,
    o: OptionsConfig,
) -> (Seq<u8>, u64) {
    let sel = spec_selected(s, o.reverse);
    let s2 = advance(s);
    if sel {
        (with_row(buf, start, spec_reverse_row(row_of(buf, start, stride))), s2)
    } else {
        (buf, s2)
    }
}

/// The flip entry: one decision draw; when selected, one more draw picks a
/// reference row in `[0, h)` and the row is overwritten with its bytes (as
/// they stand at this point of the walk).
pub open spec fn spec_step_flip(
    buf: Seq<u8>,
    s: u64,
    start: int,
    stride: int,
    h: int,
    o: OptionsConfig,
) -> (Seq<u8>, u64) {
    let sel = spec_selected(s, o.flip);
    let s2 = advance(s);
    if sel {
        let ry = (draw(s2) as int) % h;
        (with_row(buf, start, row_of(buf, ry * stride, stride)), advance(s2))
    } else {
        (buf, s2)
    }
}

/// The channel-swap entry: one decision draw; when selected on a layout of
/// at least 2 channels, two more draws pick two distinct planes (the
/// second drawn from the remaining planes) and their samples are
/// exchanged. A 1-channel layout has no distinct pair and spends no
/// further draws.
pub open spec fn spec_step_swap(
    buf: Seq<u8>,
    s: u64,
    start: int,
    stride: int,
    c: int,
    sb: int,
    o: OptionsConfig,
) -> (Seq<u8>, u64) {
    let sel = spec_selected(s, o.channel_swap);
    let s2 = advance(s);
    if sel && c >= 2 {
        let a = (draw(s2) as int) % c;
        let s3 = advance(s2);
        let b0 = (draw(s3) as int) % (c - 1);
        let b = if b0 >= a {
            b0 + 1
        } else {
            b0
        };
        (with_row(buf, start, spec_swap_row(row_of(buf, start, stride), c, sb, a, b)), advance(s3))
    } else {
        (buf, s2)
    }
}

/// The channel-shift entry: one decision draw; when selected, three more
/// draws pick a plane, a direction and an amount in `[1, 255]`, and every
/// byte of that plane is moved by the amount, saturating at 0 and 255.
pub open spec fn spec_step_shift(
    buf: Seq<u8>,
    s: u64,
    start: int,
    stride: int,
    c: int,
    sb: int,
    o: OptionsConfig,
) -> (Seq<u8>, u64) {
    let sel = spec_selected(s, o.channel_shift);
    let s2 = advance(s);
    if sel {
        let chan = (draw(s2) as int) % c;
        let s3 = advance(s2);
        let up = draw(s3) % 2 == 0;
        let s4 = advance(s3);
        let m = 1 + (draw(s4) as int) % 255;
        (with_row(buf, start, spec_shift_row(row_of(buf, start, stride), c, sb, chan, up, m as u8)),
        advance(s4))
    } else {
        (buf, s2)
    }
}

/// One row's processing: the eligibility draw, then, for an eligible row,
/// the six catalogue entries in fixed order, each selected transform
/// applied immediately. Returns the buffer and generator state afterwards.
///
/// The geometry is fixed per invocation, so the number and order of draws
/// is a function of seed, options and geometry alone.
pub open spec fn spec_row_step(
    buf: Seq<u8>,
    s0: u64,
    y: int,
    rate: int,
    w: int,
    c: int,
    sb: int,
    h: int,
    o: OptionsConfig,
) -> (Seq<u8>, u64) {
    let stride = w * c * sb;
    let start = y * stride;
    let eligible = (draw(s0) as int) % 100 < rate;
    let s1 = advance(s0);
    if !eligible {
        (buf, s1)
    } else {
        let st_px = spec_step_pixelate(buf, s1, start, stride, c, sb, w, o);
        let st_ls = spec_step_line_shift(st_px.0, st_px.1, start, stride, o);
        let st_rv = spec_step_reverse(st_ls.0, st_ls.1, start, stride, o);
        let st_fl = spec_step_flip(st_rv.0, st_rv.1, start, stride, h, o);
        let st_sw = spec_step_swap(st_fl.0, st_fl.1, start, stride, c, sb, o);
        spec_step_shift(st_sw.0, st_sw.1, start, stride, c, sb, o)
    }
}

/// Rows `y..h` processed in order, threading the generator state.
pub open spec fn spec_rows(
    buf: Seq<u8>,
    s: u64,
    y: int,
    rate: int,
    w: int,
    c: int,
    sb: int,
    h: int,
    o: OptionsConfig,
) -> (Seq<u8>, u64)
    decreases h - y,
{
    if y >= h {
        (buf, s)
    } else {
        let st = spec_row_step(buf, s, y, rate, w, c, sb, h, o);
        spec_rows(st.0, st.1, y + 1, rate, w, c, sb, h, o)
    }
}

/// The whole invocation: one rate draw, then every row in order. Returns
/// the corrupted bytes and the final generator state — a function of the
/// input bytes, the starting state, the geometry and the options alone.
pub open spec fn spec_mosh(
    buf: Seq<u8>,
    s0: u64,
    w: int,
    c: int,
    sb: int,
    h: int,
    o: OptionsConfig,
) -> (Seq<u8>, u64) {
    let rate = spec_rate(o, s0);
    let s1 = advance(s0);
    spec_rows(buf, s1, 0, rate, w, c, sb, h, o)
}

/// One row step never changes the buffer length.
proof fn lemma_row_step_len(
    buf: Seq<u8>,
    s0: u64,
    y: int,
    rate: int,
    w: int,
    c: int,
    sb: int,
    h: int,
    o: OptionsConfig,
)
    ensures
        spec_row_step(buf, s0, y, rate, w, c, sb, h, o).0.len() == buf.len(),
{
}

/// Processing rows never changes the buffer length.
proof fn lemma_rows_len(
    buf: Seq<u8>,
    s: u64,
    y: int,
    rate: int,
    w: int,
    c: int,
    sb: int,
    h: int,
    o: OptionsConfig,
)
    ensures
        spec_rows(buf, s, y, rate, w, c, sb, h, o).0.len() == buf.len(),
    decreases h - y,
{
    if y < h {
        let st = spec_row_step(buf, s, y, rate, w, c, sb, h, o);
        lemma_row_step_len(buf, s, y, rate, w, c, sb, h, o);
        lemma_rows_len(st.0, st.1, y + 1, rate, w, c, sb, h, o);
    }
}

/// Geometry preservation: the corrupted buffer has exactly the length of
/// the input buffer, for every input and every option record.
pub proof fn lemma_mosh_preserves_len(
    buf: Seq<u8>,
    s0: u64,
    w: int,
    c: int,
    sb: int,
    h: int,
    o: OptionsConfig,
)
    ensures
        spec_mosh(buf, s0, w, c, sb, h, o).0.len() == buf.len(),
{
    let rate = spec_rate(o, s0);
    lemma_rows_len(buf, advance(s0), 0, rate, w, c, sb, h, o);
}

/// Determinism: the corrupted buffer and the final generator state are a
/// mathematical function of the input bytes, the starting state, the
/// geometry and the options — two invocations that agree on all of them
/// produce byte-identical results. Together with `mosh_buffer`'s
/// postcondition this pins every run to the same output.
pub proof fn lemma_mosh_deterministic(
    buf1: Seq<u8>,
    s1: u64,
    o1: OptionsConfig,
    buf2: Seq<u8>,
    s2: u64,
    o2: OptionsConfig,
    w: int,
    c: int,
    sb: int,
    h: int,
)
    requires
        buf1 == buf2,
        s1 == s2,
        o1 == o2,
    ensures
        spec_mosh(buf1, s1, w, c, sb, h, o1) == spec_mosh(buf2, s2, w, c, sb, h, o2),
{
}

/// With a rate window pinned to zero no row is ever eligible, so the
/// output bytes equal the input bytes exactly.
pub proof fn lemma_zero_rate_identity(
    buf: Seq<u8>,
    s0: u64,
    w: int,
    c: int,
    sb: int,
    h: int,
    o: OptionsConfig,
)
    requires
        o.min_rate == 0,
        o.max_rate == 0,
    ensures
        spec_mosh(buf, s0, w, c, sb, h, o).0 == buf,
{
    vstd::arithmetic::div_mod::lemma_mod_bound(draw(s0) as int, 1);
    assert(spec_rate(o, s0) == 0);
    lemma_rows_rate_zero(buf, advance(s0), 0, w, c, sb, h, o);
}

/// Rows processed at rate zero stay untouched.
proof fn lemma_rows_rate_zero(
    buf: Seq<u8>,
    s: u64,
    y: int,
    w: int,
    c: int,
    sb: int,
    h: int,
    o: OptionsConfig,
)
    ensures
        spec_rows(buf, s, y, 0, w, c, sb, h, o).0 == buf,
    decreases h - y,
{
    if y < h {
        vstd::arithmetic::div_mod::lemma_mod_bound(draw(s) as int, 100);
        assert(spec_row_step(buf, s, y, 0, w, c, sb, h, o) == (buf, advance(s)));
        lemma_rows_rate_zero(buf, advance(s), y + 1, w, c, sb, h, o);
    }
}

/// With every catalogue chance at zero — the five chance fields zero and
/// the pixelation block at 1, which makes the pixelation chance zero too —
/// no transform is ever selected, and the output bytes equal the input
/// bytes exactly, whatever the rate window.
pub proof fn lemma_zero_chance_identity(
    buf: Seq<u8>,
    s0: u64,
    w: int,
    c: int,
    sb: int,
    h: int,
    o: OptionsConfig,
)
    requires
        o.pixelation == 1,
        o.line_shift == 0,
        o.reverse == 0,
        o.flip == 0,
        o.channel_swap == 0,
        o.channel_shift == 0,
    ensures
        spec_mosh(buf, s0, w, c, sb, h, o).0 == buf,
{
    lemma_rows_chance_zero(buf, advance(s0), 0, spec_rate(o, s0), w, c, sb, h, o);
}

/// A decision at chance zero selects nothing.
proof fn lemma_never_selected(s: u64)
    ensures
        !spec_selected(s, 0),
{
    vstd::arithmetic::div_mod::lemma_mod_bound(draw(s) as int, PROB_SCALE as int);
}

/// Rows processed with every chance at zero stay untouched: eligible rows
/// spend their six decision draws and select nothing.
proof fn lemma_rows_chance_zero(
    buf: Seq<u8>,
    s: u64,
    y: int,
    rate: int,
    w: int,
    c: int,
    sb: int,
    h: int,
    o: OptionsConfig,
)
    requires
        o.pixelation == 1,
        o.line_shift == 0,
        o.reverse == 0,
        o.flip == 0,
        o.channel_swap == 0,
        o.channel_shift == 0,
    ensures
        spec_rows(buf, s, y, rate, w, c, sb, h, o).0 == buf,
    decreases h - y,
{
    if y < h {
        let st = spec_row_step(buf, s, y, rate, w, c, sb, h, o);
        assert(st.0 == buf) by {
            let s1 = advance(s);
            lemma_never_selected(s1);
            lemma_never_selected(advance(s1));
            lemma_never_selected(advance(advance(s1)));
            lemma_never_selected(advance(advance(advance(s1))));
            lemma_never_selected(advance(advance(advance(advance(s1)))));
            lemma_never_selected(advance(advance(advance(advance(advance(s1))))));
            assert(pixelate_chance(o) == 0);
        }
        lemma_rows_chance_zero(st.0, st.1, y + 1, rate, w, c, sb, h, o);
    }
}

/// Corrupts the buffer in place, drawing every decision from `rng`.
///
/// The caller owns and threads the generator explicitly: nothing is drawn
/// from hidden state. The postcondition pins the output bytes and the
/// final generator state to `spec_mosh` of the inputs — the whole walk is
/// a mathematical function of (bytes, state, geometry, options) — and the
/// geometry (width, height, color layout, depth, byte count) is unchanged.
/// Validation has already happened: a well-formed buffer is required, and
/// the engine itself cannot fail.
pub fn mosh_buffer(raster: &mut RasterBuffer, options: &OptionsConfig, rng: &mut DeterministicRng)
    requires
        old(raster).wf(),
        options.wf(),
    ensures
        final(raster).width == old(raster).width,
        final(raster).height == old(raster).height,
        final(raster).color == old(raster).color,
        final(raster).bit_depth == old(raster).bit_depth,
        final(raster).bytes@.len() == old(raster).bytes@.len(),
        final(raster).wf(),
        final(raster).bytes@ == spec_mosh(
            old(raster).bytes@,
            old(rng).state,
            old(raster).width as int,
            spec_channels(old(raster).color) as int,
            old(raster).spec_sample_bytes() as int,
            old(raster).height as int,
            *options,
        ).0,
        final(rng).state == spec_mosh(
            old(raster).bytes@,
            old(rng).state,
            old(raster).width as int,
            spec_channels(old(raster).color) as int,
            old(raster).spec_sample_bytes() as int,
            old(raster).height as int,
            *options,
        ).1,
{
    let ghost o = *options;
    let ghost s0 = rng.state;
    let ghost buf0 = raster.bytes@;
    let h32 = raster.height;
    let w_us = raster.width as usize;
    let c8 = channels(raster.color);
    let sb8 = raster.bit_depth / 8;
    let c_us = c8 as usize;
    let sb_us = sb8 as usize;
    let ghost wi = raster.width as int;
    let ghost ci = c8 as int;
    let ghost si = sb8 as int;
    let ghost hi = h32 as int;
    proof {
        lemma_stride_whole_bytes(raster.color, raster.bit_depth, raster.width);
    }
    let stride_wide = row_stride(raster.color, raster.bit_depth, raster.width);
    let n = raster.bytes.len();
    proof {
        if raster.height == 0 {
            vstd::arithmetic::mul::lemma_mul_by_zero_is_zero(raster.spec_stride() as int);
        }
        assert(hi >= 1);
        lemma_mul_inequality(1, hi, raster.spec_stride() as int);
    }
    let stride: usize = stride_wide as usize;
    let ghost sti = stride as int;
    proof {
        assert(sti == wi * ci * si);
        assert(n == hi * sti);
    }
    let rate: u64 = rng.next_in_range(options.min_rate as u64, options.max_rate as u64);
    let ghost s1 = rng.state;
    let ghost ratei = rate as int;
    proof {
        assert(ratei == spec_rate(o, s0));
        assert(s1 == advance(s0));
    }
    let mut y: u32 = 0;
    while y < h32
        invariant
            options.wf(),
            o == *options,
            raster.width == old(raster).width,
            raster.height == old(raster).height,
            raster.color == old(raster).color,
            raster.bit_depth == old(raster).bit_depth,
            h32 == raster.height,
            w_us == raster.width as usize,
            c8 == spec_channels(raster.color),
            1 <= c8 <= 4,
            raster.bit_depth == 8 || raster.bit_depth == 16,
            sb8 == raster.bit_depth / 8,
            1 <= sb8 <= 2,
            c_us == c8 as usize,
            sb_us == sb8 as usize,
            wi == raster.width as int,
            ci == c8 as int,
            si == sb8 as int,
            hi == h32 as int,
            sti == stride as int,
            sti == wi * ci * si,
            sti == raster.spec_stride() as int,
            n == raster.bytes@.len(),
            n == buf0.len(),
            n == hi * sti,
            n > 0,
            hi >= 1,
            y <= h32,
            ratei == rate as int,
            ratei == spec_rate(o, s0),
            spec_rows(raster.bytes@, rng.state, y as int, ratei, wi, ci, si, hi, o) == spec_rows(
                buf0,
                s1,
                0,
                ratei,
                wi,
                ci,
                si,
                hi,
                o,
            ),
        decreases h32 - y,
    {
        mosh_row(&mut raster.bytes, rng, options, rate, y, stride, w_us, c_us, sb_us, h32);
        y = y + 1;
    }
}

/// Processes one row: the eligibility draw and, for an eligible row, the
/// six catalogue entries in order, exactly as `spec_row_step` states.
fn mosh_row(
    bytes: &mut Vec<u8>,
    rng: &mut DeterministicRng,
    options: &OptionsConfig,
    rate: u64,
    y: u32,
    stride: usize,
    width: usize,
    channels_n: usize,
    sample_bytes: usize,
    height: u32,
)
    requires
        options.wf(),
        1 <= channels_n <= 4,
        1 <= sample_bytes <= 2,
        stride as int == width * channels_n * sample_bytes,
        height >= 1,
        y < height,
        old(bytes)@.len() == height * stride,
    ensures
        final(bytes)@.len() == old(bytes)@.len(),
        (final(bytes)@, final(rng).state) == spec_row_step(
            old(bytes)@,
            old(rng).state,
            y as int,
            rate as int,
            width as int,
            channels_n as int,
            sample_bytes as int,
            height as int,
            *options,
        ),
{
    let ghost hi = height as int;
    let ghost sti = stride as int;
    let ghost yi = y as int;
    let n = bytes.len();
    proof {
        lemma_mul_inequality(yi + 1, hi, sti);
        lemma_mul_is_distributive_add_other_way(sti, yi, 1);
        lemma_mul_inequality(yi, hi, sti);
    }
    let start: usize = (y as usize) * stride;
    let e = rng.next_below(100);
    if e < rate {
        step_pixelate(bytes, rng, options, start, stride, width, channels_n, sample_bytes);
        step_line_shift(bytes, rng, options, start, stride);
        step_reverse(bytes, rng, options, start, stride);
        step_flip(bytes, rng, options, start, stride, height);
        step_swap(bytes, rng, options, start, stride, width, channels_n, sample_bytes);
        step_shift(bytes, rng, options, start, stride, width, channels_n, sample_bytes);
    }
}

/// The pixelate entry, as `spec_step_pixelate` states it.
fn step_pixelate(
    bytes: &mut Vec<u8>,
    rng: &mut DeterministicRng,
    options: &OptionsConfig,
    start: usize,
    stride: usize,
    width: usize,
    channels_n: usize,
    sample_bytes: usize,
)
    requires
        options.wf(),
        1 <= channels_n <= 4,
        1 <= sample_bytes <= 2,
        stride as int == width * channels_n * sample_bytes,
        start + stride <= old(bytes)@.len(),
    ensures
        final(bytes)@.len() == old(bytes)@.len(),
        (final(bytes)@, final(rng).state) == spec_step_pixelate(
            old(bytes)@,
            old(rng).state,
            start as int,
            stride as int,
            channels_n as int,
            sample_bytes as int,
            width as int,
            *options,
        ),
{
    let px_chance: u16 = if options.pixelation > 1 {
        PROB_SCALE
    } else {
        0
    };
    let sel = rng.next_below(PROB_SCALE as u64);
    if sel < px_chance as u64 {
        pixelate_row(bytes, start, width, channels_n, sample_bytes, options.pixelation);
    }
}

/// The line-shift entry, as `spec_step_line_shift` states it.
fn step_line_shift(
    bytes: &mut Vec<u8>,
    rng: &mut DeterministicRng,
    options: &OptionsConfig,
    start: usize,
    stride: usize,
)
    requires
        options.wf(),
        start + stride <= old(bytes)@.len(),
    ensures
        final(bytes)@.len() == old(bytes)@.len(),
        (final(bytes)@, final(rng).state) == spec_step_line_shift(
            old(bytes)@,
            old(rng).state,
            start as int,
            stride as int,
            *options,
        ),
{
    let sel = rng.next_below(PROB_SCALE as u64);
    if sel < options.line_shift as u64 && stride >= 2 {
        let k = rng.next_in_range(1, (stride - 1) as u64);
        rotate_row(bytes, start, stride, k as usize);
    }
}

/// The reverse entry, as `spec_step_reverse` states it.
fn step_reverse(
    bytes: &mut Vec<u8>,
    rng: &mut DeterministicRng,
    options: &OptionsConfig,
    start: usize,
    stride: usize,
)
    requires
        options.wf(),
        start + stride <= old(bytes)@.len(),
    ensures
        final(bytes)@.len() == old(bytes)@.len(),
        (final(bytes)@, final(rng).state) == spec_step_reverse(
            old(bytes)@,
            old(rng).state,
            start as int,
            stride as int,
            *options,
        ),
{
    let sel = rng.next_below(PROB_SCALE as u64);
    if sel < options.reverse as u64 {
        reverse_row(bytes, start, stride);
    }
}

/// The flip entry, as `spec_step_flip` states it.
fn step_flip(
    bytes: &mut Vec<u8>,
    rng: &mut DeterministicRng,
    options: &OptionsConfig,
    start: usize,
    stride: usize,
    height: u32,
)
    requires
        options.wf(),
        height >= 1,
        old(bytes)@.len() == height * stride,
        start + stride <= old(bytes)@.len(),
    ensures
        final(bytes)@.len() == old(bytes)@.len(),
        (final(bytes)@, final(rng).state) == spec_step_flip(
            old(bytes)@,
            old(rng).state,
            start as int,
            stride as int,
            height as int,
            *options,
        ),
{
    let ghost hi = height as int;
    let ghost sti = stride as int;
    let n = bytes.len();
    let sel = rng.next_below(PROB_SCALE as u64);
    if sel < options.flip as u64 {
        let ry = rng.next_below(height as u64);
        proof {
            lemma_mul_inequality(ry as int + 1, hi, sti);
            lemma_mul_is_distributive_add_other_way(sti, ry as int, 1);
            lemma_mul_inequality(ry as int, hi, sti);
        }
        let src: usize = (ry as usize) * stride;
        flip_row(bytes, start, src, stride);
    }
}

/// The channel-swap entry, as `spec_step_swap` states it.
fn step_swap(
    bytes: &mut Vec<u8>,
    rng: &mut DeterministicRng,
    options: &OptionsConfig,
    start: usize,
    stride: usize,
    width: usize,
    channels_n: usize,
    sample_bytes: usize,
)
    requires
        options.wf(),
        1 <= channels_n <= 4,
        1 <= sample_bytes <= 2,
        stride as int == width * channels_n * sample_bytes,
        start + stride <= old(bytes)@.len(),
    ensures
        final(bytes)@.len() == old(bytes)@.len(),
        (final(bytes)@, final(rng).state) == spec_step_swap(
            old(bytes)@,
            old(rng).state,
            start as int,
            stride as int,
            channels_n as int,
            sample_bytes as int,
            *options,
        ),
{
    let sel = rng.next_below(PROB_SCALE as u64);
    if sel < options.channel_swap as u64 && channels_n >= 2 {
        let a = rng.next_below(channels_n as u64) as usize;
        let b0 = rng.next_below((channels_n - 1) as u64) as usize;
        let b: usize = if b0 >= a {
            b0 + 1
        } else {
            b0
        };
        swap_channels_row(bytes, start, width, channels_n, sample_bytes, a, b);
    }
}

/// The channel-shift entry, as `spec_step_shift` states it.
fn step_shift(
    bytes: &mut Vec<u8>,
    rng: &mut DeterministicRng,
    options: &OptionsConfig,
    start: usize,
    stride: usize,
    width: usize,
    channels_n: usize,
    sample_bytes: usize,
)
    requires
        options.wf(),
        1 <= channels_n <= 4,
        1 <= sample_bytes <= 2,
        stride as int == width * channels_n * sample_bytes,
        start + stride <= old(bytes)@.len(),
    ensures
        final(bytes)@.len() == old(bytes)@.len(),
        (final(bytes)@, final(rng).state) == spec_step_shift(
            old(bytes)@,
            old(rng).state,
            start as int,
            stride as int,
            channels_n as int,
            sample_bytes as int,
            *options,
        ),
{
    let sel = rng.next_below(PROB_SCALE as u64);
    if sel < options.channel_shift as u64 {
        let chan = rng.next_below(channels_n as u64) as usize;
        let up = rng.next_below(2) == 0;
        let m = rng.next_in_range(1, 255) as u8;
        shift_channel_row(bytes, start, width, channels_n, sample_bytes, chan, up, m);
    }
}

} // verus!