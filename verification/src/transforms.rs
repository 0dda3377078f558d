//! The fixed catalogue of row-level corruption operations.
//!
//! Every transform works on one scanline of the flat byte buffer, given as a
//! starting offset and a length, and leaves every byte outside that scanline
//! untouched. Each executable transform is pinned to a pointwise
//! specification of the bytes it produces; the corruption driver composes
//! these specifications row by row. No transform changes the buffer length.
//!
//! Channel-aware transforms see the row as `width` samples of `channels`
//! channels, each sample `sample_bytes` wide, laid out sample-interleaved:
//! the byte at row offset `i` belongs to channel plane `(i / sample_bytes)
//! % channels`.

use vstd::arithmetic::div_mod::lemma_fundamental_div_mod_converse_div;
use vstd::arithmetic::div_mod::lemma_fundamental_div_mod_converse_mod;
use vstd::arithmetic::mul::lemma_mul_inequality;
use vstd::arithmetic::mul::lemma_mul_is_associative;
use vstd::arithmetic::mul::lemma_mul_is_distributive_add_other_way;
use vstd::arithmetic::mul::lemma_mul_is_distributive_sub_other_way;
use vstd::prelude::*;

verus! {

/// The channel plane that the byte at row offset `i` belongs to, in a row of
/// `channels`-channel samples that are `sample_bytes` wide each.
pub open spec fn spec_plane(i: int, channels: int, sample_bytes: int) -> int {
    (i / sample_bytes) % channels
}

/// Where the byte at row offset `i` comes from after planes `a` and `b` are
/// exchanged: a byte of plane `a` takes its value from the same position in
/// plane `b` and the other way round; every other byte keeps its own.
pub open spec fn spec_swap_target(
    i: int,
    channels: int,
    sample_bytes: int,
    a: int,
    b: int,
) -> int {
    let p = spec_plane(i, channels, sample_bytes);
    if p == a {
        i + (b - a) * sample_bytes
    } else if p == b {
        i - (b - a) * sample_bytes
    } else {
        i
    }
}

/// A row with the sample values of channel planes `a` and `b` exchanged.
pub open spec fn spec_swap_row(
    row: Seq<u8>,
    channels: int,
    sample_bytes: int,
    a: int,
    b: int,
) -> Seq<u8> {
    Seq::new(row.len(), |i: int| row[spec_swap_target(i, channels, sample_bytes, a, b)])
}

/// Addition saturating at 255 instead of wrapping.
pub open spec fn sat_add(v: u8, m: u8) -> u8 {
    if v + m > 255 {
        255u8
    } else {
        (v + m) as u8
    }
}

/// Subtraction saturating at 0 instead of wrapping.
pub open spec fn sat_sub(v: u8, m: u8) -> u8 {
    if v - m < 0 {
        0u8
    } else {
        (v - m) as u8
    }
}

/// A row with `amount` added to (`up`) or subtracted from (not `up`) every
/// byte of channel plane `chan`, saturating at 255 and 0.
pub open spec fn spec_shift_row(
    row: Seq<u8>,
    channels: int,
    sample_bytes: int,
    chan: int,
    up: bool,
    amount: u8,
) -> Seq<u8> {
    Seq::new(
        row.len(),
        |i: int|
            if spec_plane(i, channels, sample_bytes) == chan {
                if up {
                    sat_add(row[i], amount)
                } else {
                    sat_sub(row[i], amount)
                }
            } else {
                row[i]
            },
    )
}

/// In a row of samples, the byte at `(j * channels + p) * sample_bytes + q`
/// (sample `j`, plane `p`, byte `q` of the sample) decomposes back into
/// those coordinates by division and remainder.
proof fn lemma_decompose(i: int, j: int, p: int, q: int, channels: int, sample_bytes: int)
    requires
        channels >= 1,
        sample_bytes >= 1,
        0 <= q < sample_bytes,
        0 <= p < channels,
        0 <= j,
        i == (j * channels + p) * sample_bytes + q,
    ensures
        i / sample_bytes == j * channels + p,
        i % sample_bytes == q,
        (i / sample_bytes) % channels == p,
        (i / sample_bytes) / channels == j,
{
    lemma_fundamental_div_mod_converse_div(i, sample_bytes, j * channels + p, q);
    lemma_fundamental_div_mod_converse_mod(i, sample_bytes, j * channels + p, q);
    lemma_fundamental_div_mod_converse_div(j * channels + p, channels, j, p);
    lemma_fundamental_div_mod_converse_mod(j * channels + p, channels, j, p);
}

/// The bytes of the scanline starting at `start`, `stride` bytes long.
pub open spec fn row_of(buf: Seq<u8>, start: int, stride: int) -> Seq<u8> {
    buf.subrange(start, start + stride)
}

/// `buf` with the scanline at `start` replaced by `row`.
pub open spec fn with_row(buf: Seq<u8>, start: int, row: Seq<u8>) -> Seq<u8> {
    Seq::new(
        buf.len(),
        |i: int|
            if start <= i < start + row.len() {
                row[i - start]
            } else {
                buf[i]
            },
    )
}

/// A row with its byte order reversed.
pub open spec fn spec_reverse_row(row: Seq<u8>) -> Seq<u8> {
    Seq::new(row.len(), |i: int| row[row.len() - 1 - i])
}

/// A row cyclically rotated left by `k` bytes, for `0 <= k < row.len()`.
pub open spec fn spec_rotate_row(row: Seq<u8>, k: int) -> Seq<u8> {
    Seq::new(
        row.len(),
        |i: int|
            if i + k < row.len() {
                row[i + k]
            } else {
                row[i + k - row.len()]
            },
    )
}

/// Copies `len` bytes starting at `start` out of the buffer.
fn copy_range(bytes: &Vec<u8>, start: usize, len: usize) -> (r: Vec<u8>)
    requires
        start + len <= bytes@.len(),
    ensures
        r@ == bytes@.subrange(start as int, start as int + len as int),
{
    let n = bytes.len();
    let mut r: Vec<u8> = Vec::new();
    let mut i: usize = 0;
    while i < len
        invariant
            i <= len,
            n == bytes@.len(),
            start + len <= n,
            r@.len() == i,
            forall|k: int| 0 <= k < i ==> r@[k] == bytes@[start + k],
        decreases len - i,
    {
        r.push(bytes[start + i]);
        i = i + 1;
    }
    proof {
        assert(r@ =~= bytes@.subrange(start as int, start as int + len as int));
    }
    r
}

/// Reverses the byte order of the scanline at `start`.
///
/// Involutive: applied twice it restores the original bytes
/// (`lemma_reverse_involutive`).
pub fn reverse_row(bytes: &mut Vec<u8>, start: usize, stride: usize)
    requires
        start + stride <= old(bytes)@.len(),
    ensures
        final(bytes)@ == with_row(
            old(bytes)@,
            start as int,
            spec_reverse_row(row_of(old(bytes)@, start as int, stride as int)),
        ),
{
    let tmp = copy_range(bytes, start, stride);
    let n = bytes.len();
    let mut i: usize = 0;
    while i < stride
        invariant
            i <= stride,
            bytes@.len() == n,
            old(bytes)@.len() == n,
            start + stride <= n,
            tmp@ == row_of(old(bytes)@, start as int, stride as int),
            tmp@.len() == stride,
            forall|j: int|
                start <= j < start + i ==> #[trigger] bytes@[j] == tmp@[stride - 1 - (j - start)],
            forall|j: int|
                0 <= j < n && !(start <= j < start + i) ==> bytes@[j] == old(bytes)@[j],
        decreases stride - i,
    {
        bytes.set(start + i, tmp[stride - 1 - i]);
        i = i + 1;
    }
    proof {
        assert(bytes@ =~= with_row(
            old(bytes)@,
            start as int,
            spec_reverse_row(row_of(old(bytes)@, start as int, stride as int)),
        ));
    }
}

/// Reversing a row twice gives back the row: the reverse transform is an
/// involution.
pub proof fn lemma_reverse_involutive(row: Seq<u8>)
    ensures
        spec_reverse_row(spec_reverse_row(row)) == row,
{
    assert(spec_reverse_row(spec_reverse_row(row)) =~= row);
}

/// Cyclically rotates the scanline at `start` left by `k` bytes,
/// desynchronizing it horizontally.
pub fn rotate_row(bytes: &mut Vec<u8>, start: usize, stride: usize, k: usize)
    requires
        start + stride <= old(bytes)@.len(),
        k < stride,
    ensures
        final(bytes)@ == with_row(
            old(bytes)@,
            start as int,
            spec_rotate_row(row_of(old(bytes)@, start as int, stride as int), k as int),
        ),
{
    let tmp = copy_range(bytes, start, stride);
    let n = bytes.len();
    let mut i: usize = 0;
    while i < stride
        invariant
            i <= stride,
            k < stride,
            bytes@.len() == n,
            old(bytes)@.len() == n,
            start + stride <= n,
            tmp@ == row_of(old(bytes)@, start as int, stride as int),
            tmp@.len() == stride,
            forall|j: int|
                start <= j < start + i ==> #[trigger] bytes@[j] == spec_rotate_row(tmp@, k as int)[j - start],
            forall|j: int|
                0 <= j < n && !(start <= j < start + i) ==> bytes@[j] == old(bytes)@[j],
        decreases stride - i,
    {
        let src: usize = if i < stride - k {
            i + k
        } else {
            i - (stride - k)
        };
        bytes.set(start + i, tmp[src]);
        i = i + 1;
    }
    proof {
        assert(bytes@ =~= with_row(
            old(bytes)@,
            start as int,
            spec_rotate_row(row_of(old(bytes)@, start as int, stride as int), k as int),
        ));
    }
}

/// Overwrites the scanline at `dst_start` with a copy of the scanline at
/// `src_start`, simulating a duplicated or frozen line.
pub fn flip_row(bytes: &mut Vec<u8>, dst_start: usize, src_start: usize, stride: usize)
    requires
        dst_start + stride <= old(bytes)@.len(),
        src_start + stride <= old(bytes)@.len(),
    ensures
        final(bytes)@ == with_row(
            old(bytes)@,
            dst_start as int,
            row_of(old(bytes)@, src_start as int, stride as int),
        ),
{
    let tmp = copy_range(bytes, src_start, stride);
    let n = bytes.len();
    let mut i: usize = 0;
    while i < stride
        invariant
            i <= stride,
            bytes@.len() == n,
            old(bytes)@.len() == n,
            dst_start + stride <= n,
            src_start + stride <= n,
            tmp@ == row_of(old(bytes)@, src_start as int, stride as int),
            tmp@.len() == stride,
            forall|j: int|
                dst_start <= j < dst_start + i ==> #[trigger] bytes@[j] == tmp@[j - dst_start],
            forall|j: int|
                0 <= j < n && !(dst_start <= j < dst_start + i) ==> bytes@[j] == old(bytes)@[j],
        decreases stride - i,
    {
        bytes.set(dst_start + i, tmp[i]);
        i = i + 1;
    }
    proof {
        assert(bytes@ =~= with_row(
            old(bytes)@,
            dst_start as int,
            row_of(old(bytes)@, src_start as int, stride as int),
        ));
    }
}

/// Exchanges the sample values of channel planes `a` and `b` across the
/// scanline at `start`, which holds `width` samples of `channels` channels,
/// each `sample_bytes` wide.
pub fn swap_channels_row(
    bytes: &mut Vec<u8>,
    start: usize,
    width: usize,
    channels: usize,
    sample_bytes: usize,
    a: usize,
    b: usize,
)
    requires
        1 <= channels <= 4,
        1 <= sample_bytes <= 2,
        a < channels,
        b < channels,
        start + width * channels * sample_bytes <= old(bytes)@.len(),
    ensures
        final(bytes)@ == with_row(
            old(bytes)@,
            start as int,
            spec_swap_row(
                row_of(old(bytes)@, start as int, (width * channels * sample_bytes) as int),
                channels as int,
                sample_bytes as int,
                a as int,
                b as int,
            ),
        ),
{
    let n = bytes.len();
    proof {
        lemma_mul_is_associative(width as int, channels as int, sample_bytes as int);
        vstd::arithmetic::mul::lemma_mul_upper_bound(channels as int, 4, sample_bytes as int, 2);
    }
    let pix: usize = channels * sample_bytes;
    let stride: usize = width * pix;
    let tmp = copy_range(bytes, start, stride);
    let mut i: usize = 0;
    let mut j: usize = 0;
    let mut p: usize = 0;
    let mut q: usize = 0;
    proof {
        vstd::arithmetic::mul::lemma_mul_basics_3(channels as int);
        vstd::arithmetic::mul::lemma_mul_basics_3(sample_bytes as int);
        assert((0 * (channels as int) + 0) * (sample_bytes as int) + 0 == 0);
    }
    while i < stride
        invariant
            1 <= channels <= 4,
            1 <= sample_bytes <= 2,
            a < channels,
            b < channels,
            stride == width * channels * sample_bytes,
            bytes@.len() == n,
            old(bytes)@.len() == n,
            start + stride <= n,
            tmp@ == row_of(old(bytes)@, start as int, stride as int),
            tmp@.len() == stride,
            i <= stride,
            q < sample_bytes,
            p < channels,
            j <= width,
            i == (j * channels + p) * sample_bytes + q,
            j < width || (p == 0 && q == 0),
            forall|m: int|
                start <= m < start + i ==> #[trigger] bytes@[m] == spec_swap_row(
                    tmp@,
                    channels as int,
                    sample_bytes as int,
                    a as int,
                    b as int,
                )[m - start],
            forall|m: int|
                0 <= m < n && !(start <= m < start + i) ==> bytes@[m] == old(bytes)@[m],
        decreases stride - i,
    {
        let ghost ci = channels as int;
        let ghost si = sample_bytes as int;
        let ghost ji = j as int;
        let ghost pi = p as int;
        let ghost qi = q as int;
        proof {
            lemma_mul_is_associative(width as int, ci, si);
            if j == width {
                assert(i as int == (width * channels) * sample_bytes + 0);
                assert(false);
            }
        }
        let pb: usize = if p == a {
            b
        } else if p == b {
            a
        } else {
            p
        };
        let ghost pbi = pb as int;
        proof {
            // the partner byte of sample j lies inside the row:
            // (j*c + pb + 1) * sb <= (w*c) * sb == stride
            lemma_mul_inequality(ji + 1, width as int, ci);
            lemma_mul_is_distributive_add_other_way(ci, ji, 1);
            lemma_mul_inequality(ji * ci + pbi + 1, (width as int) * ci, si);
            lemma_mul_is_distributive_add_other_way(si, ji * ci + pbi, 1);
            assert((ji * ci + pbi) * si + qi < stride as int);
            lemma_mul_inequality(1, si, ji * ci + pbi);
            vstd::arithmetic::mul::lemma_mul_is_commutative(si, ji * ci + pbi);
        }
        let t_idx: usize = (j * channels + pb) * sample_bytes + q;
        proof {
            lemma_decompose(i as int, ji, pi, qi, ci, si);
            lemma_mul_is_distributive_add_other_way(si, ji * ci, pbi);
            lemma_mul_is_distributive_add_other_way(si, ji * ci, pi);
            lemma_mul_is_distributive_sub_other_way(si, b as int, a as int);
            assert(t_idx as int == spec_swap_target(i as int, ci, si, a as int, b as int));
        }
        let v = tmp[t_idx];
        bytes.set(start + i, v);
        proof {
            lemma_mul_is_distributive_add_other_way(si, ji * ci + pi, 1);
            lemma_mul_is_distributive_add_other_way(ci, ji, 1);
            lemma_mul_is_distributive_add_other_way(si, ji * ci, ci);
            lemma_mul_is_distributive_add_other_way(si, ji * ci, pi);
        }
        i = i + 1;
        q = q + 1;
        if q == sample_bytes {
            q = 0;
            p = p + 1;
            if p == channels {
                p = 0;
                j = j + 1;
            }
        }
    }
    proof {
        assert(bytes@ =~= with_row(
            old(bytes)@,
            start as int,
            spec_swap_row(
                row_of(old(bytes)@, start as int, (width * channels * sample_bytes) as int),
                channels as int,
                sample_bytes as int,
                a as int,
                b as int,
            ),
        ));
    }
}

/// Adds (`up`) or subtracts (not `up`) `amount` to every byte of channel
/// plane `chan` across the scanline at `start`, saturating at 0 and 255,
/// producing color fringing.
pub fn shift_channel_row(
    bytes: &mut Vec<u8>,
    start: usize,
    width: usize,
    channels: usize,
    sample_bytes: usize,
    chan: usize,
    up: bool,
    amount: u8,
)
    requires
        1 <= channels <= 4,
        1 <= sample_bytes <= 2,
        chan < channels,
        start + width * channels * sample_bytes <= old(bytes)@.len(),
    ensures
        final(bytes)@ == with_row(
            old(bytes)@,
            start as int,
            spec_shift_row(
                row_of(old(bytes)@, start as int, (width * channels * sample_bytes) as int),
                channels as int,
                sample_bytes as int,
                chan as int,
                up,
                amount,
            ),
        ),
{
    let n = bytes.len();
    proof {
        lemma_mul_is_associative(width as int, channels as int, sample_bytes as int);
        vstd::arithmetic::mul::lemma_mul_upper_bound(channels as int, 4, sample_bytes as int, 2);
    }
    let pix: usize = channels * sample_bytes;
    let stride: usize = width * pix;
    let tmp = copy_range(bytes, start, stride);
    let mut i: usize = 0;
    let mut j: usize = 0;
    let mut p: usize = 0;
    let mut q: usize = 0;
    proof {
        vstd::arithmetic::mul::lemma_mul_basics_3(channels as int);
        vstd::arithmetic::mul::lemma_mul_basics_3(sample_bytes as int);
        assert((0 * (channels as int) + 0) * (sample_bytes as int) + 0 == 0);
    }
    while i < stride
        invariant
            1 <= channels <= 4,
            1 <= sample_bytes <= 2,
            chan < channels,
            stride == width * channels * sample_bytes,
            bytes@.len() == n,
            old(bytes)@.len() == n,
            start + stride <= n,
            tmp@ == row_of(old(bytes)@, start as int, stride as int),
            tmp@.len() == stride,
            i <= stride,
            q < sample_bytes,
            p < channels,
            j <= width,
            i == (j * channels + p) * sample_bytes + q,
            j < width || (p == 0 && q == 0),
            forall|m: int|
                start <= m < start + i ==> #[trigger] bytes@[m] == spec_shift_row(
                    tmp@,
                    channels as int,
                    sample_bytes as int,
                    chan as int,
                    up,
                    amount,
                )[m - start],
            forall|m: int|
                0 <= m < n && !(start <= m < start + i) ==> bytes@[m] == old(bytes)@[m],
        decreases stride - i,
    {
        let ghost ci = channels as int;
        let ghost si = sample_bytes as int;
        let ghost ji = j as int;
        let ghost pi = p as int;
        let ghost qi = q as int;
        proof {
            lemma_mul_is_associative(width as int, ci, si);
            if j == width {
                assert(i as int == (width * channels) * sample_bytes + 0);
                assert(false);
            }
            lemma_decompose(i as int, ji, pi, qi, ci, si);
        }
        let v0 = tmp[i];
        let v: u8 = if p == chan {
            if up {
                v0.saturating_add(amount)
            } else {
                v0.saturating_sub(amount)
            }
        } else {
            v0
        };
        bytes.set(start + i, v);
        proof {
            lemma_mul_is_distributive_add_other_way(si, ji * ci + pi, 1);
            lemma_mul_is_distributive_add_other_way(ci, ji, 1);
            lemma_mul_is_distributive_add_other_way(si, ji * ci, ci);
            lemma_mul_is_distributive_add_other_way(si, ji * ci, pi);
        }
        i = i + 1;
        q = q + 1;
        if q == sample_bytes {
            q = 0;
            p = p + 1;
            if p == channels {
                p = 0;
                j = j + 1;
            }
        }
    }
    proof {
        assert(bytes@ =~= with_row(
            old(bytes)@,
            start as int,
            spec_shift_row(
                row_of(old(bytes)@, start as int, (width * channels * sample_bytes) as int),
                channels as int,
                sample_bytes as int,
                chan as int,
                up,
                amount,
            ),
        ));
    }
}

/// Number of pixelation groups per channel plane: `width` samples split
/// into runs of `block`, the last run possibly short.
pub open spec fn n_groups(width: int, block: int) -> int {
    width / block + if width % block == 0 {
        0int
    } else {
        1int
    }
}

/// End (exclusive) of pixelation group `g`: a full run of `block` samples,
/// clipped to `width`.
pub open spec fn group_end(g: int, block: int, width: int) -> int {
    if (g + 1) * block < width {
        (g + 1) * block
    } else {
        width
    }
}

/// Sum of the bytes at byte-position `q` of channel plane `p`, over samples
/// `from..to` of a row.
pub open spec fn plane_sum(
    row: Seq<u8>,
    channels: int,
    sample_bytes: int,
    p: int,
    q: int,
    from: int,
    to: int,
) -> int
    decreases to - from,
{
    if from >= to {
        0
    } else {
        row[(from * channels + p) * sample_bytes + q] + plane_sum(
            row,
            channels,
            sample_bytes,
            p,
            q,
            from + 1,
            to,
        )
    }
}

/// The integer average over pixelation group `g` of plane `p`,
/// byte-position `q`.
pub open spec fn group_avg(
    row: Seq<u8>,
    channels: int,
    sample_bytes: int,
    p: int,
    q: int,
    g: int,
    block: int,
    width: int,
) -> u8 {
    let from = g * block;
    let to = group_end(g, block, width);
    (plane_sum(row, channels, sample_bytes, p, q, from, to) / (to - from)) as u8
}

/// A row pixelated: each channel plane partitioned into runs of `block`
/// samples, every byte replaced by the integer average of its run.
pub open spec fn spec_pixelate_row(
    row: Seq<u8>,
    channels: int,
    sample_bytes: int,
    block: int,
    width: int,
) -> Seq<u8> {
    Seq::new(
        row.len(),
        |i: int|
            {
                let s = i / sample_bytes;
                let q = i % sample_bytes;
                let p = s % channels;
                let j = s / channels;
                group_avg(row, channels, sample_bytes, p, q, j / block, block, width)
            },
    )
}

/// Appending one more sample to a plane sum adds that sample's byte.
proof fn lemma_plane_sum_snoc(
    row: Seq<u8>,
    channels: int,
    sample_bytes: int,
    p: int,
    q: int,
    from: int,
    to: int,
)
    requires
        from <= to,
    ensures
        plane_sum(row, channels, sample_bytes, p, q, from, to + 1) == plane_sum(
            row,
            channels,
            sample_bytes,
            p,
            q,
            from,
            to,
        ) + row[(to * channels + p) * sample_bytes + q],
    decreases to - from,
{
    if from < to {
        lemma_plane_sum_snoc(row, channels, sample_bytes, p, q, from + 1, to);
    } else {
        assert(plane_sum(row, channels, sample_bytes, p, q, to + 1, to + 1) == 0);
    }
}

/// A plane sum of byte values lies between 0 and 255 per sample.
proof fn lemma_plane_sum_bounds(
    row: Seq<u8>,
    channels: int,
    sample_bytes: int,
    p: int,
    q: int,
    from: int,
    to: int,
)
    requires
        from <= to,
    ensures
        0 <= plane_sum(row, channels, sample_bytes, p, q, from, to) <= 255 * (to - from),
    decreases to - from,
{
    if from < to {
        lemma_plane_sum_bounds(row, channels, sample_bytes, p, q, from + 1, to);
    }
}

/// The pixelation groups tile the samples: every group below `n_groups`
/// starts before `width`, and together the groups cover `width`.
proof fn lemma_groups_cover(width: int, block: int)
    requires
        block >= 1,
        width >= 0,
    ensures
        n_groups(width, block) * block >= width,
        forall|g: int|
            0 <= g < n_groups(width, block) ==> #[trigger] (g * block) < width,
{
    vstd::arithmetic::div_mod::lemma_fundamental_div_mod(width, block);
    vstd::arithmetic::div_mod::lemma_mod_bound(width, block);
    let d = width / block;
    let ng = n_groups(width, block);
    lemma_mul_is_distributive_add_other_way(block, d, 1);
    vstd::arithmetic::mul::lemma_mul_is_commutative(block, d);
    assert(ng * block >= width);
    assert forall|g: int| 0 <= g < ng implies #[trigger] (g * block) < width by {
        lemma_mul_inequality(g, ng - 1, block);
        lemma_mul_is_distributive_sub_other_way(block, ng, 1);
        vstd::arithmetic::mul::lemma_mul_is_commutative(block, ng);
    }
}

/// The group average seen through the flat index of the averages table:
/// entry `k` decomposes as group `k % n_groups` of plane/byte-position
/// `k / n_groups`.
spec fn avg_at(
    row: Seq<u8>,
    channels: int,
    sample_bytes: int,
    block: int,
    width: int,
    k: int,
) -> u8 {
    let ng = n_groups(width, block);
    let g = k % ng;
    let t = k / ng;
    let q = t % sample_bytes;
    let p = t / sample_bytes;
    group_avg(row, channels, sample_bytes, p, q, g, block, width)
}

/// First pixelation pass: the table of group averages, one entry per
/// `(plane, byte-position, group)` in flat order.
fn pixelate_averages(tmp: &Vec<u8>, width: usize, channels: usize, sample_bytes: usize, block: u8)
    -> (avgs: Vec<u8>)
    requires
        1 <= channels <= 4,
        1 <= sample_bytes <= 2,
        block >= 1,
        tmp@.len() == width * channels * sample_bytes,
    ensures
        avgs@.len() == (channels * sample_bytes) * n_groups(width as int, block as int),
        forall|k: int|
            0 <= k < avgs@.len() ==> #[trigger] avgs@[k] == avg_at(
                tmp@,
                channels as int,
                sample_bytes as int,
                block as int,
                width as int,
                k,
            ),
{
    let ghost ci = channels as int;
    let ghost si = sample_bytes as int;
    let ghost bi = block as int;
    let ghost wi = width as int;
    let ghost ngi = n_groups(wi, bi);
    proof {
        lemma_groups_cover(wi, bi);
        vstd::arithmetic::div_mod::lemma_div_pos_is_pos(wi, bi);
        vstd::arithmetic::mul::lemma_mul_by_zero_is_zero(si);
        vstd::arithmetic::mul::lemma_mul_by_zero_is_zero(ngi);
        assert((0 * si + 0) * ngi + 0 == 0);
        vstd::arithmetic::div_mod::lemma_mod_bound(wi, bi);
        if wi % bi != 0 {
            vstd::arithmetic::div_mod::lemma_div_is_ordered_by_denominator(wi, 2, bi);
        }
    }
    let tlen: usize = tmp.len();
    let block_w: usize = block as usize;
    let ng: usize = width / block_w + (if width % block_w == 0 {
        0
    } else {
        1
    });
    let mut avgs: Vec<u8> = Vec::new();
    let mut p: usize = 0;
    while p < channels
        invariant
            1 <= channels <= 4,
            1 <= sample_bytes <= 2,
            block >= 1,
            block_w == block as usize,
            ci == channels as int,
            si == sample_bytes as int,
            bi == block as int,
            wi == width as int,
            ngi == n_groups(wi, bi),
            ng == ngi,
            tmp@.len() == width * channels * sample_bytes,
            tlen == tmp@.len(),
            p <= channels,
            avgs@.len() == (p * si) * ngi,
            forall|m: int|
                0 <= m < avgs@.len() ==> #[trigger] avgs@[m] == avg_at(tmp@, ci, si, bi, wi, m),
        decreases channels - p,
    {
        let mut q: usize = 0;
        proof {
            vstd::arithmetic::mul::lemma_mul_is_associative(p as int, si, ngi);
        }
        while q < sample_bytes
            invariant
                1 <= channels <= 4,
                1 <= sample_bytes <= 2,
                block >= 1,
                block_w == block as usize,
                ci == channels as int,
                si == sample_bytes as int,
                bi == block as int,
                wi == width as int,
                ngi == n_groups(wi, bi),
                ng == ngi,
                tmp@.len() == width * channels * sample_bytes,
                tlen == tmp@.len(),
                p < channels,
                q <= sample_bytes,
                avgs@.len() == ((p as int) * si + q) * ngi,
                forall|m: int|
                    0 <= m < avgs@.len() ==> #[trigger] avgs@[m] == avg_at(tmp@, ci, si, bi, wi, m),
            decreases sample_bytes - q,
        {
            let mut g: usize = 0;
            while g < ng
                invariant
                    1 <= channels <= 4,
                    1 <= sample_bytes <= 2,
                    block >= 1,
                    block_w == block as usize,
                    ci == channels as int,
                    si == sample_bytes as int,
                    bi == block as int,
                    wi == width as int,
                    ngi == n_groups(wi, bi),
                    ng == ngi,
                    tmp@.len() == width * channels * sample_bytes,
                    tlen == tmp@.len(),
                    p < channels,
                    q < sample_bytes,
                    g <= ng,
                    avgs@.len() == ((p as int) * si + q as int) * ngi + g,
                    forall|m: int|
                        0 <= m < avgs@.len() ==> #[trigger] avgs@[m] == avg_at(
                            tmp@,
                            ci,
                            si,
                            bi,
                            wi,
                            m,
                        ),
                decreases ng - g,
            {
                let ghost pi = p as int;
                let ghost qi = q as int;
                let ghost gi = g as int;
                let ghost k = avgs@.len() as int;
                proof {
                    lemma_groups_cover(wi, bi);
                    assert(gi * bi < wi);
                }
                let from: usize = g * block_w;
                let to: usize = if width - from > block_w {
                    from + block_w
                } else {
                    width
                };
                let ghost fromi = from as int;
                let ghost toi = to as int;
                proof {
                    lemma_mul_is_distributive_add_other_way(bi, gi, 1);
                    assert(toi == group_end(gi, bi, wi));
                    assert(fromi < toi <= fromi + bi);
                }
                let mut sum: u32 = 0;
                let mut jj: usize = from;
                while jj < to
                    invariant
                        1 <= channels <= 4,
                        1 <= sample_bytes <= 2,
                        ci == channels as int,
                        si == sample_bytes as int,
                        wi == width as int,
                        tmp@.len() == width * channels * sample_bytes,
                        tlen == tmp@.len(),
                        p < channels,
                        q < sample_bytes,
                        fromi == from as int,
                        toi == to as int,
                        pi == p as int,
                        qi == q as int,
                        from <= jj <= to,
                        to <= width,
                        toi <= fromi + 255,
                        sum == plane_sum(tmp@, ci, si, pi, qi, fromi, jj as int),
                        sum <= 255 * (jj - from),
                    decreases to - jj,
                {
                    let ghost ji = jj as int;
                    proof {
                        lemma_mul_is_associative(wi, ci, si);
                        lemma_mul_inequality(ji + 1, wi, ci);
                        lemma_mul_is_distributive_add_other_way(ci, ji, 1);
                        lemma_mul_inequality(ji * ci + pi + 1, wi * ci, si);
                        lemma_mul_is_distributive_add_other_way(si, ji * ci + pi, 1);
                        assert((ji * ci + pi) * si + qi < tmp@.len());
                        lemma_mul_inequality(1, si, ji * ci + pi);
                        vstd::arithmetic::mul::lemma_mul_is_commutative(si, ji * ci + pi);
                        lemma_plane_sum_snoc(tmp@, ci, si, pi, qi, fromi, ji);
                    }
                    let idx: usize = (jj * channels + p) * sample_bytes + q;
                    sum = sum + (tmp[idx] as u32);
                    jj = jj + 1;
                }
                let count: usize = to - from;
                proof {
                    lemma_plane_sum_bounds(tmp@, ci, si, pi, qi, fromi, toi);
                    vstd::arithmetic::div_mod::lemma_div_is_ordered(
                        sum as int,
                        255 * (toi - fromi),
                        toi - fromi,
                    );
                    vstd::arithmetic::div_mod::lemma_div_multiples_vanish(255, toi - fromi);
                    assert((toi - fromi) * 255 == 255 * (toi - fromi));
                    assert(sum as int / (toi - fromi) <= 255);
                }
                let avg: u8 = (sum / (count as u32)) as u8;
                avgs.push(avg);
                proof {
                    assert(ngi >= 1);
                    lemma_fundamental_div_mod_converse_div(k, ngi, pi * si + qi, gi);
                    lemma_fundamental_div_mod_converse_mod(k, ngi, pi * si + qi, gi);
                    lemma_fundamental_div_mod_converse_div(pi * si + qi, si, pi, qi);
                    lemma_fundamental_div_mod_converse_mod(pi * si + qi, si, pi, qi);
                    assert(avgs@[k] == avg_at(tmp@, ci, si, bi, wi, k));
                }
                g = g + 1;
            }
            proof {
                lemma_mul_is_distributive_add_other_way(ngi, (p as int) * si + q as int, 1);
            }
            q = q + 1;
        }
        proof {
            lemma_mul_is_distributive_add_other_way(si, p as int, 1);
        }
        p = p + 1;
    }
    proof {
        vstd::arithmetic::mul::lemma_mul_is_commutative(ci, si);
        vstd::arithmetic::mul::lemma_mul_is_associative(ci, si, ngi);
    }
    avgs
}

/// Pixelates the scanline at `start`: each channel plane is partitioned
/// into contiguous runs of `block` samples and every sample in a run is
/// replaced by the run's integer average (block downsampling). A block of 1
/// leaves the row unchanged (`lemma_pixelate_block_one_identity`).
pub fn pixelate_row(
    bytes: &mut Vec<u8>,
    start: usize,
    width: usize,
    channels: usize,
    sample_bytes: usize,
    block: u8,
)
    requires
        1 <= channels <= 4,
        1 <= sample_bytes <= 2,
        block >= 1,
        start + width * channels * sample_bytes <= old(bytes)@.len(),
    ensures
        final(bytes)@ == with_row(
            old(bytes)@,
            start as int,
            spec_pixelate_row(
                row_of(old(bytes)@, start as int, (width * channels * sample_bytes) as int),
                channels as int,
                sample_bytes as int,
                block as int,
                width as int,
            ),
        ),
{
    let ghost ci = channels as int;
    let ghost si = sample_bytes as int;
    let ghost bi = block as int;
    let ghost wi = width as int;
    let ghost ngi = n_groups(wi, bi);
    let n = bytes.len();
    proof {
        lemma_mul_is_associative(wi, ci, si);
        vstd::arithmetic::mul::lemma_mul_upper_bound(ci, 4, si, 2);
        vstd::arithmetic::div_mod::lemma_mod_bound(wi, bi);
        if wi % bi != 0 {
            vstd::arithmetic::div_mod::lemma_div_is_ordered_by_denominator(wi, 2, bi);
        }
        vstd::arithmetic::div_mod::lemma_div_pos_is_pos(wi, bi);
    }
    let pix: usize = channels * sample_bytes;
    let stride: usize = width * pix;
    let tmp = copy_range(bytes, start, stride);
    let avgs = pixelate_averages(&tmp, width, channels, sample_bytes, block);
    let alen: usize = avgs.len();
    let block_w: usize = block as usize;
    let ng: usize = width / block_w + (if width % block_w == 0 {
        0
    } else {
        1
    });
    let mut i: usize = 0;
    let mut j: usize = 0;
    let mut p: usize = 0;
    let mut q: usize = 0;
    let mut g: usize = 0;
    let mut jb: usize = 0;
    proof {
        vstd::arithmetic::mul::lemma_mul_by_zero_is_zero(ci);
        vstd::arithmetic::mul::lemma_mul_by_zero_is_zero(si);
        vstd::arithmetic::mul::lemma_mul_by_zero_is_zero(bi);
        assert((0 * ci + 0) * si + 0 == 0);
    }
    while i < stride
        invariant
            1 <= channels <= 4,
            1 <= sample_bytes <= 2,
            block >= 1,
            block_w == block as usize,
            ci == channels as int,
            si == sample_bytes as int,
            bi == block as int,
            wi == width as int,
            ngi == n_groups(wi, bi),
            ng == ngi,
            stride == width * channels * sample_bytes,
            bytes@.len() == n,
            old(bytes)@.len() == n,
            start + stride <= n,
            tmp@ == row_of(old(bytes)@, start as int, stride as int),
            tmp@.len() == stride,
            alen == avgs@.len(),
            avgs@.len() == (ci * si) * ngi,
            forall|k: int|
                0 <= k < avgs@.len() ==> #[trigger] avgs@[k] == avg_at(tmp@, ci, si, bi, wi, k),
            i <= stride,
            q < sample_bytes,
            p < channels,
            j <= width,
            jb < block_w,
            i == (j * channels + p) * sample_bytes + q,
            j == g * bi + jb,
            j < width || (p == 0 && q == 0),
            forall|m: int|
                start <= m < start + i ==> #[trigger] bytes@[m] == spec_pixelate_row(
                    tmp@,
                    ci,
                    si,
                    bi,
                    wi,
                )[m - start],
            forall|m: int|
                0 <= m < n && !(start <= m < start + i) ==> bytes@[m] == old(bytes)@[m],
        decreases stride - i,
    {
        let ghost ji = j as int;
        let ghost pi = p as int;
        let ghost qi = q as int;
        let ghost gi = g as int;
        let ghost jbi = jb as int;
        proof {
            lemma_mul_is_associative(wi, ci, si);
            if j == width {
                assert(i as int == (width * channels) * sample_bytes + 0);
                assert(false);
            }
            // this sample's group is one of the table's groups
            lemma_groups_cover(wi, bi);
            if gi >= ngi {
                lemma_mul_inequality(ngi, gi, bi);
                assert(false);
            }
            // the flat table index of (p, q, g) is within the table
            lemma_mul_inequality(pi + 1, ci, si);
            lemma_mul_is_distributive_add_other_way(si, pi, 1);
            lemma_mul_inequality(pi * si + qi + 1, ci * si, ngi);
            lemma_mul_is_distributive_add_other_way(ngi, pi * si + qi, 1);
            vstd::arithmetic::mul::lemma_mul_upper_bound(pi, 3, si, 2);
        }
        let flat: usize = (p * sample_bytes + q) * ng + g;
        let v = avgs[flat];
        proof {
            lemma_decompose(i as int, ji, pi, qi, ci, si);
            lemma_fundamental_div_mod_converse_div(ji, bi, gi, jbi);
            assert(ngi >= 1);
            lemma_fundamental_div_mod_converse_div(flat as int, ngi, pi * si + qi, gi);
            lemma_fundamental_div_mod_converse_mod(flat as int, ngi, pi * si + qi, gi);
            lemma_fundamental_div_mod_converse_div(pi * si + qi, si, pi, qi);
            lemma_fundamental_div_mod_converse_mod(pi * si + qi, si, pi, qi);
            assert(v == group_avg(tmp@, ci, si, pi, qi, gi, bi, wi));
            assert(spec_pixelate_row(tmp@, ci, si, bi, wi)[i as int] == v);
        }
        bytes.set(start + i, v);
        proof {
            lemma_mul_is_distributive_add_other_way(si, ji * ci + pi, 1);
            lemma_mul_is_distributive_add_other_way(ci, ji, 1);
            lemma_mul_is_distributive_add_other_way(si, ji * ci, ci);
            lemma_mul_is_distributive_add_other_way(si, ji * ci, pi);
            lemma_mul_is_distributive_add_other_way(bi, gi, 1);
        }
        i = i + 1;
        q = q + 1;
        if q == sample_bytes {
            q = 0;
            p = p + 1;
            if p == channels {
                p = 0;
                j = j + 1;
                jb = jb + 1;
                if jb == block_w {
                    jb = 0;
                    g = g + 1;
                }
            }
        }
    }
    proof {
        assert(bytes@ =~= with_row(
            old(bytes)@,
            start as int,
            spec_pixelate_row(
                row_of(old(bytes)@, start as int, (width * channels * sample_bytes) as int),
                ci,
                si,
                bi,
                wi,
            ),
        ));
    }
}

/// With a block size of 1 the pixelation transform leaves any row
/// unchanged: every group is a single sample and its average is itself.
pub proof fn lemma_pixelate_block_one_identity(
    row: Seq<u8>,
    channels: int,
    sample_bytes: int,
    width: int,
)
    requires
        channels >= 1,
        sample_bytes >= 1,
        width >= 0,
        row.len() == width * channels * sample_bytes,
    ensures
        spec_pixelate_row(row, channels, sample_bytes, 1, width) == row,
{
    assert forall|i: int| 0 <= i < row.len() implies spec_pixelate_row(
        row,
        channels,
        sample_bytes,
        1,
        width,
    )[i] == row[i] by {
        let s = i / sample_bytes;
        let q = i % sample_bytes;
        let p = s % channels;
        let j = s / channels;
        vstd::arithmetic::div_mod::lemma_fundamental_div_mod(i, sample_bytes);
        vstd::arithmetic::div_mod::lemma_mod_bound(i, sample_bytes);
        vstd::arithmetic::div_mod::lemma_fundamental_div_mod(s, channels);
        vstd::arithmetic::div_mod::lemma_mod_bound(s, channels);
        vstd::arithmetic::div_mod::lemma_div_basics_4(i, sample_bytes);
        vstd::arithmetic::div_mod::lemma_div_basics_4(s, channels);
        lemma_mul_is_associative(width, channels, sample_bytes);
        vstd::arithmetic::mul::lemma_mul_is_commutative(width * channels, sample_bytes);
        vstd::arithmetic::div_mod::lemma_multiply_divide_lt(i, sample_bytes, width * channels);
        vstd::arithmetic::mul::lemma_mul_is_commutative(width, channels);
        vstd::arithmetic::div_mod::lemma_multiply_divide_lt(s, channels, width);
        vstd::arithmetic::div_mod::lemma_div_basics_2(j);
        assert(j * 1 == j);
        assert((j + 1) * 1 == j + 1);
        assert(plane_sum(row, channels, sample_bytes, p, q, j + 1, j + 1) == 0);
        vstd::arithmetic::mul::lemma_mul_is_commutative(channels, j);
        vstd::arithmetic::mul::lemma_mul_is_commutative(sample_bytes, s);
        assert((j * channels + p) * sample_bytes + q == i);
        assert(plane_sum(row, channels, sample_bytes, p, q, j, j + 1) == row[i]);
        vstd::arithmetic::div_mod::lemma_div_basics_2(row[i] as int);
        assert(group_avg(row, channels, sample_bytes, p, q, j, 1, width) == row[i]);
    };
    assert(spec_pixelate_row(row, channels, sample_bytes, 1, width) =~= row);
}

} // verus!
