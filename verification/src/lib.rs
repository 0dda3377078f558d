//! A seed-driven pixel-buffer corruption engine ("datamoshing") for decoded
//! raster images, with a PNG front door.
//!
//! The core walks the scanlines of a validated pixel buffer and, driven by
//! a fully specified random stream, applies a fixed catalogue of row and
//! channel corruptions in a fixed order. Fixed seed, options and input
//! give byte-identical output; geometry (length, width, height, color
//! layout) is never altered. `Core` bundles the options with the last
//! processed image and offers the original binding surface: field access,
//! reseeding, and `pixelmosh` over PNG container bytes.

use vstd::prelude::*;

pub mod buffer;
pub mod codec;
pub mod engine;
pub mod options;
pub mod rng;
pub mod transforms;

use crate::buffer::ColorKind;
use crate::buffer::MoshError;
use crate::buffer::RasterBuffer;
use crate::buffer::color_code;
use crate::buffer::color_from_code;
use crate::buffer::spec_channels;
use crate::buffer::spec_color_code;
use crate::buffer::spec_color_from_code;
use crate::codec::png_decode_of;
use crate::codec::png_encode_of;
use crate::engine::mosh_buffer;
use crate::engine::spec_mosh;
use crate::options::OptionsConfig;
use crate::options::spec_default_options;
use crate::rng::DeterministicRng;

verus! {

/// Relies on rand::random: one machine-random 64-bit seed. Nothing is
/// promised of the value; callers treat it as arbitrary. rand documents
/// that the thread-local generator panics if the operating system's
/// entropy source fails when first seeded; this trusted call inherits
/// that behavior.
#[verifier::external_body]
fn fresh_seed() -> u64 {
    rand::random::<u64>()
}

/// The outcome `pixelmosh` owes on `image` under options `o`: the named
/// PNG decode, the color code mapping, the geometry validation, the
/// engine's corruption of the decoded bytes under `o`'s seed, and the
/// named PNG encode of the result, each failure mapped to its error.
pub open spec fn spec_pixelmosh_outcome(image: Seq<u8>, o: OptionsConfig) -> Result<
    Seq<u8>,
    MoshError,
> {
    match png_decode_of(image) {
        None => Err(MoshError::DecodeFailed),
        Some((w, h, code, depth, bytes)) => match spec_color_from_code(code) {
            None => Err(MoshError::DecodeFailed),
            Some(color) => match RasterBuffer::spec_validation(w, h, color, depth, bytes.len()) {
                Some(e) => Err(e),
                None => {
                    let moshed = spec_mosh(
                        bytes,
                        o.seed,
                        w as int,
                        spec_channels(color) as int,
                        (depth / 8) as int,
                        h as int,
                        o,
                    ).0;
                    match png_encode_of(w, h, spec_color_code(color), depth, moshed) {
                        None => Err(MoshError::EncodeFailed),
                        Some(out) => Ok(out),
                    }
                },
            },
        },
    }
}

/// With the rate window pinned to zero, `pixelmosh` re-encodes the
/// decoded pixels exactly as they were: for an image the decoder and the
/// validator accept, the outcome is the named encode of the unchanged
/// decoded bytes.
pub proof fn lemma_pixelmosh_zero_rate(
    image: Seq<u8>,
    o: OptionsConfig,
    t: (u32, u32, u8, u8, Seq<u8>),
    color: ColorKind,
)
    requires
        o.min_rate == 0,
        o.max_rate == 0,
        png_decode_of(image) == Some(t),
        spec_color_from_code(t.2) == Some(color),
        RasterBuffer::spec_validation(t.0, t.1, color, t.3, t.4.len()) is None,
    ensures
        spec_pixelmosh_outcome(image, o) == (match png_encode_of(
            t.0,
            t.1,
            spec_color_code(color),
            t.3,
            t.4,
        ) {
            None => Err::<Seq<u8>, MoshError>(MoshError::EncodeFailed),
            Some(out) => Ok::<Seq<u8>, MoshError>(out),
        }),
{
    crate::engine::lemma_zero_rate_identity(
        t.4,
        o.seed,
        t.0 as int,
        spec_channels(color) as int,
        (t.3 / 8) as int,
        t.1 as int,
        o,
    );
}

/// With every catalogue chance at zero — the five chance fields zero and
/// the pixelation block at 1 — `pixelmosh` likewise re-encodes the decoded
/// pixels unchanged, whatever the rate window.
pub proof fn lemma_pixelmosh_zero_chances(
    image: Seq<u8>,
    o: OptionsConfig,
    t: (u32, u32, u8, u8, Seq<u8>),
    color: ColorKind,
)
    requires
        o.pixelation == 1,
        o.line_shift == 0,
        o.reverse == 0,
        o.flip == 0,
        o.channel_swap == 0,
        o.channel_shift == 0,
        png_decode_of(image) == Some(t),
        spec_color_from_code(t.2) == Some(color),
        RasterBuffer::spec_validation(t.0, t.1, color, t.3, t.4.len()) is None,
    ensures
        spec_pixelmosh_outcome(image, o) == (match png_encode_of(
            t.0,
            t.1,
            spec_color_code(color),
            t.3,
            t.4,
        ) {
            None => Err::<Seq<u8>, MoshError>(MoshError::EncodeFailed),
            Some(out) => Ok::<Seq<u8>, MoshError>(out),
        }),
{
    crate::engine::lemma_zero_chance_identity(
        t.4,
        o.seed,
        t.0 as int,
        spec_channels(color) as int,
        (t.3 / 8) as int,
        t.1 as int,
        o,
    );
}

/// The two option records agree on everything but the seed.
pub open spec fn same_but_seed(a: OptionsConfig, b: OptionsConfig) -> bool {
    &&& a.min_rate == b.min_rate
    &&& a.max_rate == b.max_rate
    &&& a.pixelation == b.pixelation
    &&& a.line_shift == b.line_shift
    &&& a.reverse == b.reverse
    &&& a.flip == b.flip
    &&& a.channel_swap == b.channel_swap
    &&& a.channel_shift == b.channel_shift
}

/// The engine's host-facing container: the current corruption options and
/// the raster of the last processed image.
pub struct Core {
    /// The corruption parameters the next invocation will use.
    pub options: OptionsConfig,
    /// The validated, corrupted raster of the last successful invocation.
    pub data: Option<RasterBuffer>,
}

impl Default for Core {
    /// A fresh container: the documented default options and no image.
    fn default() -> (r: Self)
        ensures
            r.options == spec_default_options(),
            r.options.wf(),
            r.data is None,
    {
        Core { options: OptionsConfig::default(), data: None }
    }
}

impl Core {
    /// Lower bound of the corruption rate window.
    pub fn min_rate(&self) -> (r: u16)
        ensures
            r == self.options.min_rate,
    {
        self.options.min_rate
    }

    /// Upper bound of the corruption rate window.
    pub fn max_rate(&self) -> (r: u16)
        ensures
            r == self.options.max_rate,
    {
        self.options.max_rate
    }

    /// Pixelation block size in samples.
    pub fn pixelation(&self) -> (r: u8)
        ensures
            r == self.options.pixelation,
    {
        self.options.pixelation
    }

    /// Chance of the line-shift transform, in thousandths.
    pub fn line_shift(&self) -> (r: u16)
        ensures
            r == self.options.line_shift,
    {
        self.options.line_shift
    }

    /// Chance of the reverse transform, in thousandths.
    pub fn reverse(&self) -> (r: u16)
        ensures
            r == self.options.reverse,
    {
        self.options.reverse
    }

    /// Chance of the flip transform, in thousandths.
    pub fn flip(&self) -> (r: u16)
        ensures
            r == self.options.flip,
    {
        self.options.flip
    }

    /// Chance of the channel-swap transform, in thousandths.
    pub fn channel_swap(&self) -> (r: u16)
        ensures
            r == self.options.channel_swap,
    {
        self.options.channel_swap
    }

    /// Chance of the channel-shift transform, in thousandths.
    pub fn channel_shift(&self) -> (r: u16)
        ensures
            r == self.options.channel_shift,
    {
        self.options.channel_shift
    }

    /// The seed the next invocation will use.
    pub fn seed(&self) -> (r: u64)
        ensures
            r == self.options.seed,
    {
        self.options.seed
    }

    /// Sets the lower rate bound; every other option is kept.
    pub fn set_min_rate(&mut self, value: u16)
        ensures
            final(self).options == (OptionsConfig { min_rate: value, ..old(self).options }),
            final(self).data == old(self).data,
    {
        self.options.min_rate = value;
    }

    /// Sets the upper rate bound; every other option is kept.
    pub fn set_max_rate(&mut self, value: u16)
        ensures
            final(self).options == (OptionsConfig { max_rate: value, ..old(self).options }),
            final(self).data == old(self).data,
    {
        self.options.max_rate = value;
    }

    /// Sets the pixelation block size; every other option is kept.
    pub fn set_pixelation(&mut self, value: u8)
        ensures
            final(self).options == (OptionsConfig { pixelation: value, ..old(self).options }),
            final(self).data == old(self).data,
    {
        self.options.pixelation = value;
    }

    /// Sets the line-shift chance; every other option is kept.
    pub fn set_line_shift(&mut self, value: u16)
        ensures
            final(self).options == (OptionsConfig { line_shift: value, ..old(self).options }),
            final(self).data == old(self).data,
    {
        self.options.line_shift = value;
    }

    /// Sets the reverse chance; every other option is kept.
    pub fn set_reverse(&mut self, value: u16)
        ensures
            final(self).options == (OptionsConfig { reverse: value, ..old(self).options }),
            final(self).data == old(self).data,
    {
        self.options.reverse = value;
    }

    /// Sets the flip chance; every other option is kept.
    pub fn set_flip(&mut self, value: u16)
        ensures
            final(self).options == (OptionsConfig { flip: value, ..old(self).options }),
            final(self).data == old(self).data,
    {
        self.options.flip = value;
    }

    /// Sets the channel-swap chance; every other option is kept.
    pub fn set_channel_swap(&mut self, value: u16)
        ensures
            final(self).options == (OptionsConfig { channel_swap: value, ..old(self).options }),
            final(self).data == old(self).data,
    {
        self.options.channel_swap = value;
    }

    /// Sets the channel-shift chance; every other option is kept.
    pub fn set_channel_shift(&mut self, value: u16)
        ensures
            final(self).options == (OptionsConfig { channel_shift: value, ..old(self).options }),
            final(self).data == old(self).data,
    {
        self.options.channel_shift = value;
    }

    /// Draws a fresh machine-random seed for the next invocation; every
    /// other option is kept. Reseeding is explicit: nothing else ever
    /// changes the seed.
    pub fn new_seed(&mut self)
        ensures
            same_but_seed(final(self).options, old(self).options),
            final(self).data == old(self).data,
    {
        self.options.seed = fresh_seed();
    }

    /// Decodes PNG container bytes, corrupts the pixel buffer with the
    /// current options and seed, and re-encodes it with unchanged
    /// geometry and color metadata.
    ///
    /// The decoded buffer is validated before any corruption: a geometry
    /// mismatch, an empty image or an unaddressable layout comes back as
    /// the matching error and the previous image is kept. On success the
    /// corrupted raster — the engine\'s `spec_mosh` of the decoded pixels
    /// under the current options and seed — is stored in `data` and the
    /// re-encoded container returned. The options, seed included, are
    /// never changed here, so rerunning with the same options on the same
    /// bytes gives the same output.
    pub fn pixelmosh(&mut self, image: &[u8]) -> (r: Result<Vec<u8>, MoshError>)
        requires
            old(self).options.wf(),
        ensures
            final(self).options == old(self).options,
            match r {
                Ok(out) => spec_pixelmosh_outcome(image@, old(self).options) == Ok::<
                    Seq<u8>,
                    MoshError,
                >(out@),
                Err(e) => spec_pixelmosh_outcome(image@, old(self).options) == Err::<
                    Seq<u8>,
                    MoshError,
                >(e),
            },
            r matches Ok(_) ==> (final(self).data matches Some(rb) && png_decode_of(image@)
                matches Some(t) && rb.width == t.0 && rb.height == t.1 && spec_color_from_code(
                t.2,
            ) == Some(rb.color) && rb.bit_depth == t.3 && rb.wf() && rb.bytes@ == spec_mosh(
                t.4,
                old(self).options.seed,
                t.0 as int,
                spec_channels(rb.color) as int,
                (t.3 / 8) as int,
                t.1 as int,
                old(self).options,
            ).0),
            r matches Err(_) ==> final(self).data == old(self).data,
    {
        let ghost o = old(self).options;
        let decoded = codec::decode_png(image);
        let (w, h, code, depth, buf) = match decoded {
            Ok(t) => t,
            Err(e) => {
                return Err(e);
            },
        };
        let ghost t = (w, h, code, depth, buf@);
        proof {
            assert(png_decode_of(image@) == Some(t));
        }
        let color = match color_from_code(code) {
            Some(c) => c,
            None => {
                return Err(MoshError::DecodeFailed);
            },
        };
        let mut raster = match RasterBuffer::new(w, h, color, depth, buf) {
            Ok(rb) => rb,
            Err(e) => {
                return Err(e);
            },
        };
        let mut rng = DeterministicRng::from_seed(self.options.seed);
        mosh_buffer(&mut raster, &self.options, &mut rng);
        proof {
            assert(raster.bytes@ == spec_mosh(
                t.4,
                o.seed,
                t.0 as int,
                spec_channels(color) as int,
                (t.3 / 8) as int,
                t.1 as int,
                o,
            ).0);
        }
        let out = match codec::encode_png(
            raster.width,
            raster.height,
            color_code(raster.color),
            raster.bit_depth,
            &raster.bytes,
        ) {
            Ok(v) => v,
            Err(e) => {
                return Err(e);
            },
        };
        self.data = Some(raster);
        Ok(out)
    }
}

} // verus!
