//! The validated pixel buffer.
//!
//! A `RasterBuffer` owns the raw bytes of a decoded image together with the
//! declared geometry (width, height, color layout, sample depth). It can
//! only be built through `RasterBuffer::new`, which checks the buffer length
//! against the geometry before any corruption can begin; the engine then
//! works on a buffer whose shape is known to be right.

use vstd::prelude::*;

verus! {

/// The channel layouts the engine addresses.
#[derive(Clone, Copy, Debug, PartialEq, Eq, Structural)]
pub enum ColorKind {
    /// One luminance channel.
    Grayscale,
    /// Luminance plus alpha.
    GrayscaleAlpha,
    /// Red, green, blue.
    Rgb,
    /// Red, green, blue, alpha.
    Rgba,
    /// One palette-index channel.
    Indexed,
}

/// The closed failure taxonomy of the engine boundary.
#[derive(Clone, Copy, Debug, PartialEq, Eq, Structural)]
pub enum MoshError {
    /// The buffer length does not match the declared geometry.
    DimensionMismatch,
    /// The geometry describes a layout the transform catalogue cannot
    /// address (a sample depth that is not a whole number of bytes).
    UnsupportedColorType,
    /// The input holds no bytes at all.
    EmptyBuffer,
    /// The upstream decoder rejected the container bytes.
    DecodeFailed,
    /// The upstream encoder rejected the buffer or geometry.
    EncodeFailed,
}

impl MoshError {
    /// A short description, for hosts that surface errors as text; one
    /// fixed line per variant.
    pub fn message(&self) -> (r: &'static str)
        ensures
            match self {
                MoshError::DimensionMismatch => r@ == "buffer length does not match geometry"@,
                MoshError::UnsupportedColorType => r@ == "unsupported color type"@,
                MoshError::EmptyBuffer => r@ == "empty buffer"@,
                MoshError::DecodeFailed => r@ == "decoding failed"@,
                MoshError::EncodeFailed => r@ == "encoding failed"@,
            },
    {
        match self {
            MoshError::DimensionMismatch => "buffer length does not match geometry",
            MoshError::UnsupportedColorType => "unsupported color type",
            MoshError::EmptyBuffer => "empty buffer",
            MoshError::DecodeFailed => "decoding failed",
            MoshError::EncodeFailed => "encoding failed",
        }
    }
}

/// The PNG color type code of a layout (the container format's own
/// numbering).
pub open spec fn spec_color_code(c: ColorKind) -> u8 {
    match c {
        ColorKind::Grayscale => 0,
        ColorKind::Rgb => 2,
        ColorKind::Indexed => 3,
        ColorKind::GrayscaleAlpha => 4,
        ColorKind::Rgba => 6,
    }
}

/// The layout behind a PNG color type code, if the code is one the format
/// knows.
pub open spec fn spec_color_from_code(code: u8) -> Option<ColorKind> {
    if code == 0 {
        Some(ColorKind::Grayscale)
    } else if code == 2 {
        Some(ColorKind::Rgb)
    } else if code == 3 {
        Some(ColorKind::Indexed)
    } else if code == 4 {
        Some(ColorKind::GrayscaleAlpha)
    } else if code == 6 {
        Some(ColorKind::Rgba)
    } else {
        None
    }
}

/// The PNG color type code of a layout. Round-trips: decoding the code
/// gives the layout back.
pub fn color_code(c: ColorKind) -> (r: u8)
    ensures
        r == spec_color_code(c),
        spec_color_from_code(r) == Some(c),
{
    match c {
        ColorKind::Grayscale => 0,
        ColorKind::Rgb => 2,
        ColorKind::Indexed => 3,
        ColorKind::GrayscaleAlpha => 4,
        ColorKind::Rgba => 6,
    }
}

/// The layout behind a PNG color type code, or `None` for a code the
/// format does not know.
pub fn color_from_code(code: u8) -> (r: Option<ColorKind>)
    ensures
        r == spec_color_from_code(code),
{
    match code {
        0 => Some(ColorKind::Grayscale),
        2 => Some(ColorKind::Rgb),
        3 => Some(ColorKind::Indexed),
        4 => Some(ColorKind::GrayscaleAlpha),
        6 => Some(ColorKind::Rgba),
        _ => None,
    }
}

/// Number of channels of a layout.
pub open spec fn spec_channels(c: ColorKind) -> nat {
    match c {
        ColorKind::Grayscale => 1,
        ColorKind::GrayscaleAlpha => 2,
        ColorKind::Rgb => 3,
        ColorKind::Rgba => 4,
        ColorKind::Indexed => 1,
    }
}

/// Number of channels of a layout.
pub fn channels(c: ColorKind) -> (n: u8)
    ensures
        n == spec_channels(c),
        1 <= n <= 4,
{
    match c {
        ColorKind::Grayscale => 1,
        ColorKind::GrayscaleAlpha => 2,
        ColorKind::Rgb => 3,
        ColorKind::Rgba => 4,
        ColorKind::Indexed => 1,
    }
}

/// Byte length of one scanline: width samples of `spec_channels(c)` channels
/// at `depth` bits each, rounded up to whole bytes.
pub open spec fn spec_row_stride(c: ColorKind, depth: u8, width: u32) -> nat {
    ((width * spec_channels(c) * depth + 7) / 8) as nat
}

/// Byte length of one scanline.
pub fn row_stride(c: ColorKind, depth: u8, width: u32) -> (r: u64)
    ensures
        r == spec_row_stride(c, depth, width),
{
    let ch = channels(c);
    proof {
        vstd::arithmetic::mul::lemma_mul_upper_bound(width as int, 0xFFFF_FFFF, ch as int, 4);
        vstd::arithmetic::mul::lemma_mul_upper_bound(
            (width as int) * (ch as int),
            0x3_FFFF_FFFC,
            depth as int,
            255,
        );
    }
    let samples: u64 = (width as u64) * (ch as u64);
    let bits: u64 = samples * (depth as u64);
    (bits + 7) / 8
}

/// For whole-byte depths the stride is exact: width times channels times
/// bytes per sample, with nothing rounded.
pub proof fn lemma_stride_whole_bytes(c: ColorKind, depth: u8, width: u32)
    requires
        depth == 8 || depth == 16,
    ensures
        spec_row_stride(c, depth, width) == width * spec_channels(c) * (depth / 8),
{
    let t = (width * spec_channels(c)) as int;
    if depth == 8 {
        vstd::arithmetic::div_mod::lemma_div_multiples_vanish_fancy(t, 7, 8);
        assert(t * 8 == 8 * t);
        assert(width * spec_channels(c) * (depth / 8) == t) by (nonlinear_arith)
            requires
                depth == 8,
                t == (width * spec_channels(c)) as int,
        ;
    } else {
        vstd::arithmetic::div_mod::lemma_div_multiples_vanish_fancy(2 * t, 7, 8);
        assert(t * 16 == 8 * (2 * t));
        assert(width * spec_channels(c) * (depth / 8) == 2 * t) by (nonlinear_arith)
            requires
                depth == 16,
                t == (width * spec_channels(c)) as int,
        ;
    }
}

/// A pixel buffer whose length has been validated against its geometry.
#[derive(Clone, Debug)]
pub struct RasterBuffer {
    /// Width in samples.
    pub width: u32,
    /// Height in scanlines.
    pub height: u32,
    /// Channel layout.
    pub color: ColorKind,
    /// Bits per sample.
    pub bit_depth: u8,
    /// The raw samples, row after row.
    pub bytes: Vec<u8>,
}

impl RasterBuffer {
    /// Bytes per sample of this buffer's depth (1 or 2 when well formed).
    pub open spec fn spec_sample_bytes(self) -> nat {
        (self.bit_depth / 8) as nat
    }

    /// Byte length of one scanline of this buffer.
    pub open spec fn spec_stride(self) -> nat {
        spec_row_stride(self.color, self.bit_depth, self.width)
    }

    /// Well-formedness: the byte count matches the geometry, the buffer is
    /// not empty, and every sample is a whole number of bytes — what
    /// `RasterBuffer::new` establishes and the engine preserves.
    pub open spec fn wf(self) -> bool {
        &&& self.bytes@.len() == self.height * self.spec_stride()
        &&& self.bytes@.len() > 0
        &&& (self.bit_depth == 8 || self.bit_depth == 16)
    }

    /// The validation verdict on a buffer of `len` bytes under a declared
    /// geometry, checked in this order: a length that disagrees with the
    /// geometry is a `DimensionMismatch`; a zero-length buffer an
    /// `EmptyBuffer`; a sub-byte sample depth an `UnsupportedColorType`;
    /// anything else is accepted.
    pub open spec fn spec_validation(
        width: u32,
        height: u32,
        color: ColorKind,
        bit_depth: u8,
        len: nat,
    ) -> Option<MoshError> {
        if len != height * spec_row_stride(color, bit_depth, width) {
            Some(MoshError::DimensionMismatch)
        } else if len == 0 {
            Some(MoshError::EmptyBuffer)
        } else if !(bit_depth == 8 || bit_depth == 16) {
            Some(MoshError::UnsupportedColorType)
        } else {
            None
        }
    }

    /// Checks `bytes` against the declared geometry without touching it:
    /// returns exactly the `spec_validation` verdict.
    pub fn validate(width: u32, height: u32, color: ColorKind, bit_depth: u8, bytes: &Vec<u8>)
        -> (r: Result<(), MoshError>)
        ensures
            match r {
                Ok(()) => Self::spec_validation(width, height, color, bit_depth, bytes@.len())
                    is None,
                Err(e) => Self::spec_validation(width, height, color, bit_depth, bytes@.len())
                    == Some(e),
            },
    {
        let stride = row_stride(color, bit_depth, width);
        proof {
            vstd::arithmetic::mul::lemma_mul_upper_bound(
                height as int,
                0xFFFF_FFFF,
                stride as int,
                0xFFFF_FFFF_FFFF_FFFF,
            );
        }
        let expected: u128 = (height as u128) * (stride as u128);
        if (bytes.len() as u128) != expected {
            return Err(MoshError::DimensionMismatch);
        }
        if bytes.len() == 0 {
            return Err(MoshError::EmptyBuffer);
        }
        if !(bit_depth == 8 || bit_depth == 16) {
            return Err(MoshError::UnsupportedColorType);
        }
        Ok(())
    }

    /// Validates `bytes` against the declared geometry, before any mutation
    /// can happen: on any verdict but acceptance the error comes back and
    /// nothing is built. On success the buffer is owned, byte for byte
    /// unchanged, by the returned well-formed value.
    pub fn new(width: u32, height: u32, color: ColorKind, bit_depth: u8, bytes: Vec<u8>) -> (r:
        Result<RasterBuffer, MoshError>)
        ensures
            match r {
                Ok(rb) => {
                    &&& Self::spec_validation(width, height, color, bit_depth, bytes@.len())
                        is None
                    &&& rb.width == width
                    &&& rb.height == height
                    &&& rb.color == color
                    &&& rb.bit_depth == bit_depth
                    &&& rb.bytes@ == bytes@
                    &&& rb.wf()
                },
                Err(e) => Self::spec_validation(width, height, color, bit_depth, bytes@.len())
                    == Some(e),
            },
    {
        match Self::validate(width, height, color, bit_depth, &bytes) {
            Ok(()) => Ok(RasterBuffer { width, height, color, bit_depth, bytes }),
            Err(e) => Err(e),
        }
    }

    /// Bytes per sample (the depth in whole bytes).
    pub fn sample_bytes(&self) -> (r: u8)
        requires
            self.wf(),
        ensures
            r == self.spec_sample_bytes(),
            1 <= r <= 2,
    {
        self.bit_depth / 8
    }

    /// The bytes of channel plane `p` of scanline `y`: for each of the
    /// `width` samples, the `sample_bytes`-wide value of that channel, in
    /// sample order. `None` for a row or plane index out of range.
    pub fn channel_plane(&self, y: u32, p: u8) -> (r: Option<Vec<u8>>)
        requires
            self.wf(),
        ensures
            match r {
                Some(v) => {
                    &&& y < self.height
                    &&& p < spec_channels(self.color)
                    &&& v@.len() == self.width * self.spec_sample_bytes()
                    &&& forall|i: int|
                        0 <= i < v@.len() ==> #[trigger] v@[i] == self.bytes@[y
                            * self.spec_stride() + ((i / self.spec_sample_bytes() as int)
                            * spec_channels(self.color) + p) * self.spec_sample_bytes() + i
                            % self.spec_sample_bytes() as int]
                },
                None => y >= self.height || p >= spec_channels(self.color),
            },
    {
        if y >= self.height {
            return None;
        }
        let c8 = channels(self.color);
        if p >= c8 {
            return None;
        }
        let ghost wi = self.width as int;
        let ghost ci = c8 as int;
        let ghost si = self.spec_sample_bytes() as int;
        let ghost hi = self.height as int;
        let ghost sti = self.spec_stride() as int;
        let ghost pi = p as int;
        let n = self.bytes.len();
        let stride_wide = row_stride(self.color, self.bit_depth, self.width);
        proof {
            lemma_stride_whole_bytes(self.color, self.bit_depth, self.width);
            vstd::arithmetic::mul::lemma_mul_is_associative(wi, ci, si);
            if self.height == 0 {
                vstd::arithmetic::mul::lemma_mul_by_zero_is_zero(sti);
            }
            vstd::arithmetic::mul::lemma_mul_inequality(1, hi, sti);
            vstd::arithmetic::mul::lemma_mul_inequality(y as int + 1, hi, sti);
            vstd::arithmetic::mul::lemma_mul_is_distributive_add_other_way(sti, y as int, 1);
            vstd::arithmetic::mul::lemma_mul_inequality(y as int, hi, sti);
        }
        let stride: usize = stride_wide as usize;
        let start: usize = (y as usize) * stride;
        let width_us = self.width as usize;
        let c_us = c8 as usize;
        let sb_us = self.bit_depth as usize / 8;
        let mut v: Vec<u8> = Vec::new();
        let mut j: usize = 0;
        while j < width_us
            invariant
                self.wf(),
                wi == self.width as int,
                ci == spec_channels(self.color),
                1 <= ci <= 4,
                si == self.spec_sample_bytes() as int,
                1 <= si <= 2,
                hi == self.height as int,
                sti == self.spec_stride() as int,
                sti == wi * ci * si,
                n == self.bytes@.len(),
                stride == sti,
                start == y * sti,
                start + sti <= n,
                0 <= pi < ci,
                pi == p as int,
                width_us == wi,
                c_us == ci,
                sb_us == si,
                j <= width_us,
                v@.len() == j * si,
                forall|i: int|
                    0 <= i < v@.len() ==> #[trigger] v@[i] == self.bytes@[y * sti + ((i / si) * ci
                        + pi) * si + i % si],
            decreases width_us - j,
        {
            let ghost ji = j as int;
            let mut qq: usize = 0;
            while qq < sb_us
                invariant
                    self.wf(),
                    wi == self.width as int,
                    ci == spec_channels(self.color),
                    1 <= ci <= 4,
                    si == self.spec_sample_bytes() as int,
                    1 <= si <= 2,
                    sti == self.spec_stride() as int,
                    sti == wi * ci * si,
                    n == self.bytes@.len(),
                    stride == sti,
                    start == y * sti,
                    start + sti <= n,
                    0 <= pi < ci,
                    pi == p as int,
                    width_us == wi,
                    c_us == ci,
                    sb_us == si,
                    ji == j as int,
                    j < width_us,
                    qq <= sb_us,
                    v@.len() == ji * si + qq,
                    forall|i: int|
                        0 <= i < v@.len() ==> #[trigger] v@[i] == self.bytes@[y * sti + ((i / si)
                            * ci + pi) * si + i % si],
                decreases sb_us - qq,
            {
                let ghost qi = qq as int;
                proof {
                    vstd::arithmetic::mul::lemma_mul_inequality(ji + 1, wi, ci);
                    vstd::arithmetic::mul::lemma_mul_is_distributive_add_other_way(ci, ji, 1);
                    vstd::arithmetic::mul::lemma_mul_inequality(ji * ci + pi + 1, wi * ci, si);
                    vstd::arithmetic::mul::lemma_mul_is_distributive_add_other_way(
                        si,
                        ji * ci + pi,
                        1,
                    );
                    assert((ji * ci + pi) * si + qi < sti);
                    vstd::arithmetic::mul::lemma_mul_inequality(1, si, ji * ci + pi);
                    vstd::arithmetic::mul::lemma_mul_is_commutative(si, ji * ci + pi);
                }
                let idx: usize = start + (j * c_us + p as usize) * sb_us + qq;
                v.push(self.bytes[idx]);
                proof {
                    let m = ji * si + qi;
                    vstd::arithmetic::div_mod::lemma_fundamental_div_mod_converse_div(
                        m,
                        si,
                        ji,
                        qi,
                    );
                    vstd::arithmetic::div_mod::lemma_fundamental_div_mod_converse_mod(
                        m,
                        si,
                        ji,
                        qi,
                    );
                    assert(v@[m] == self.bytes@[y * sti + ((m / si) * ci + pi) * si + m % si]);
                }
                qq = qq + 1;
            }
            proof {
                vstd::arithmetic::mul::lemma_mul_is_distributive_add_other_way(si, ji, 1);
            }
            j = j + 1;
        }
        proof {
            vstd::arithmetic::mul::lemma_mul_by_zero_is_zero(si);
            assert(v@.len() == wi * si);
        }
        Some(v)
    }

    /// A copy of scanline `y`, or `None` for an index outside `[0, height)`.
    pub fn row(&self, y: u32) -> (r: Option<Vec<u8>>)
        requires
            self.wf(),
        ensures
            match r {
                Some(v) => y < self.height && v@ == self.bytes@.subrange(
                    y * self.spec_stride(),
                    (y + 1) * self.spec_stride(),
                ),
                None => y >= self.height,
            },
    {
        if y >= self.height {
            return None;
        }
        let n = self.bytes.len();
        let stride_wide = row_stride(self.color, self.bit_depth, self.width);
        proof {
            let st = self.spec_stride() as int;
            let h = self.height as int;
            let yy = y as int;
            assert(h >= 1);
            vstd::arithmetic::mul::lemma_mul_inequality(1, h, st);
            assert(st <= n);
            vstd::arithmetic::mul::lemma_mul_inequality(yy + 1, h, st);
            vstd::arithmetic::mul::lemma_mul_is_distributive_add_other_way(st, yy, 1);
            assert(yy * st + st <= n);
        }
        let stride: usize = stride_wide as usize;
        let start: usize = (y as usize) * stride;
        let mut v: Vec<u8> = Vec::new();
        let mut i: usize = 0;
        while i < stride
            invariant
                i <= stride,
                v@.len() == i,
                n == self.bytes@.len(),
                start + stride <= n,
                stride == self.spec_stride(),
                start == y * self.spec_stride(),
                forall|k: int| 0 <= k < i ==> v@[k] == self.bytes@[start + k],
            decreases stride - i,
        {
            v.push(self.bytes[start + i]);
            i = i + 1;
        }
        proof {
            assert(v@ =~= self.bytes@.subrange(
                y * self.spec_stride(),
                (y + 1) * self.spec_stride(),
            ));
        }
        Some(v)
    }
}

} // verus!
