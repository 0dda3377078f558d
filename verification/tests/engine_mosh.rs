use webpixels::buffer::ColorKind;
use webpixels::buffer::RasterBuffer;
use webpixels::engine::mosh_buffer;
use webpixels::options::OptionsConfig;
use webpixels::rng::DeterministicRng;

fn options_with(min_rate: u16, max_rate: u16, seed: u64) -> OptionsConfig {
    OptionsConfig {
        min_rate,
        max_rate,
        pixelation: 1,
        line_shift: 0,
        reverse: 0,
        flip: 0,
        channel_swap: 0,
        channel_shift: 0,
        seed,
    }
}

fn raster(width: u32, height: u32, color: ColorKind, bytes: Vec<u8>) -> RasterBuffer {
    RasterBuffer::new(width, height, color, 8, bytes).expect("valid geometry")
}

#[test]
fn zero_rate_leaves_zero_image_untouched() {
    // A 4x4 RGB image of zero bytes with the rate window pinned to zero
    // comes back exactly as it went in.
    let mut rb = raster(4, 4, ColorKind::Rgb, vec![0u8; 48]);
    let opts = options_with(0, 0, 12345);
    let mut rng = DeterministicRng::from_seed(opts.seed);
    mosh_buffer(&mut rb, &opts, &mut rng);
    assert_eq!(rb.bytes, vec![0u8; 48]);
}

#[test]
fn zero_rate_leaves_any_image_untouched() {
    let bytes: Vec<u8> = (0u8..=255).collect();
    let mut rb = raster(8, 8, ColorKind::Rgba, bytes.clone());
    let opts = options_with(0, 0, 99);
    let mut rng = DeterministicRng::from_seed(opts.seed);
    mosh_buffer(&mut rb, &opts, &mut rng);
    assert_eq!(rb.bytes, bytes);
}

#[test]
fn zero_chances_leave_eligible_rows_untouched() {
    // Every row is eligible (rate 100) but every catalogue chance is zero
    // and the pixelation block is 1: the bytes survive unchanged.
    let bytes: Vec<u8> = (0..64).map(|i| (i * 3) as u8).collect();
    let mut rb = raster(4, 4, ColorKind::Rgba, bytes.clone());
    let opts = options_with(100, 100, 4242);
    let mut rng = DeterministicRng::from_seed(opts.seed);
    mosh_buffer(&mut rb, &opts, &mut rng);
    assert_eq!(rb.bytes, bytes);
}

#[test]
fn same_inputs_give_identical_output() {
    let bytes: Vec<u8> = (0..96).map(|i| (i * 7 % 251) as u8).collect();
    let opts = OptionsConfig {
        min_rate: 80,
        max_rate: 100,
        pixelation: 3,
        line_shift: 700,
        reverse: 700,
        flip: 700,
        channel_swap: 700,
        channel_shift: 700,
        seed: 31337,
    };
    let mut a = raster(8, 4, ColorKind::Rgb, bytes.clone());
    let mut b = raster(8, 4, ColorKind::Rgb, bytes);
    let mut rng_a = DeterministicRng::from_seed(opts.seed);
    let mut rng_b = DeterministicRng::from_seed(opts.seed);
    mosh_buffer(&mut a, &opts, &mut rng_a);
    mosh_buffer(&mut b, &opts, &mut rng_b);
    assert_eq!(a.bytes, b.bytes);
    assert_eq!(rng_a.state, rng_b.state);
}

#[test]
fn geometry_survives_heavy_corruption() {
    let bytes: Vec<u8> = (0..240).map(|i| (i * 11 % 256) as u8).collect();
    let mut rb = raster(10, 12, ColorKind::GrayscaleAlpha, bytes);
    let opts = OptionsConfig {
        min_rate: 100,
        max_rate: 100,
        pixelation: 4,
        line_shift: 1000,
        reverse: 1000,
        flip: 1000,
        channel_swap: 1000,
        channel_shift: 1000,
        seed: 555,
    };
    let mut rng = DeterministicRng::from_seed(opts.seed);
    mosh_buffer(&mut rb, &opts, &mut rng);
    assert_eq!(rb.bytes.len(), 240);
    assert_eq!(rb.width, 10);
    assert_eq!(rb.height, 12);
    assert_eq!(rb.color, ColorKind::GrayscaleAlpha);
    assert_eq!(rb.bit_depth, 8);
}

#[test]
fn channel_swap_turns_red_into_blue() {
    // One RGB pixel (255, 0, 0); the row is eligible and only channel swap
    // can fire. With seed 6 the two drawn planes are 0 and 2, so the pixel
    // becomes (0, 0, 255).
    let mut rb = raster(1, 1, ColorKind::Rgb, vec![255, 0, 0]);
    let opts = OptionsConfig {
        min_rate: 100,
        max_rate: 100,
        pixelation: 1,
        line_shift: 0,
        reverse: 0,
        flip: 0,
        channel_swap: 1000,
        channel_shift: 0,
        seed: 6,
    };
    let mut rng = DeterministicRng::from_seed(opts.seed);
    mosh_buffer(&mut rb, &opts, &mut rng);
    assert_eq!(rb.bytes, vec![0, 0, 255]);
}

#[test]
fn full_walk_matches_the_pinned_draw_order() {
    // A 4x2 RGB image with every transform certain to fire, seed 77. The
    // expected bytes were worked out by hand from the documented draw
    // order and transform definitions; any change to the generator, the
    // draw sequence or a transform shows up here.
    let input: Vec<u8> = (0..24u32).map(|i| ((i * 13 + 5) % 256) as u8).collect();
    let mut rb = raster(4, 2, ColorKind::Rgb, input);
    let opts = OptionsConfig {
        min_rate: 100,
        max_rate: 100,
        pixelation: 2,
        line_shift: 1000,
        reverse: 1000,
        flip: 1000,
        channel_swap: 1000,
        channel_shift: 1000,
        seed: 77,
    };
    let mut rng = DeterministicRng::from_seed(opts.seed);
    mosh_buffer(&mut rb, &opts, &mut rng);
    assert_eq!(
        rb.bytes,
        vec![
            0, 187, 174, 0, 226, 213, 0, 9, 252, 0, 48, 35, 255, 0, 174, 255, 0, 213, 90, 0,
            252, 129, 0, 35,
        ]
    );
    assert_eq!(rng.state, 17026080507310378670);
}

#[test]
fn full_walk_on_wide_samples_matches_the_pinned_draw_order() {
    // A 3x2 grayscale image at depth 16 (one channel, two bytes per
    // sample), every transform certain to fire, seed 99. With a single
    // channel the swap entry draws nothing, which this pins down: the
    // shift draws that follow would land elsewhere otherwise.
    let input: Vec<u8> = (0..12u32).map(|i| ((i * 29 + 3) % 256) as u8).collect();
    let mut rb =
        RasterBuffer::new(3, 2, ColorKind::Grayscale, 16, input).expect("valid geometry");
    let opts = OptionsConfig {
        min_rate: 100,
        max_rate: 100,
        pixelation: 2,
        line_shift: 1000,
        reverse: 1000,
        flip: 1000,
        channel_swap: 1000,
        channel_shift: 1000,
        seed: 99,
    };
    let mut rng = DeterministicRng::from_seed(opts.seed);
    mosh_buffer(&mut rb, &opts, &mut rng);
    assert_eq!(rb.bytes, vec![255, 255, 255, 105, 134, 163, 255, 255, 255, 255, 255, 255]);
    assert_eq!(rng.state, 8316709377436687984);
}

#[test]
fn corruption_changes_bytes_when_transforms_fire() {
    // A guard against an engine that never touches the buffer: with every
    // chance at full and a varied image, some byte must change.
    let bytes: Vec<u8> = (0..90).map(|i| i as u8).collect();
    let mut rb = raster(10, 3, ColorKind::Rgb, bytes.clone());
    let opts = OptionsConfig {
        min_rate: 100,
        max_rate: 100,
        pixelation: 5,
        line_shift: 1000,
        reverse: 1000,
        flip: 0,
        channel_swap: 0,
        channel_shift: 0,
        seed: 1,
    };
    let mut rng = DeterministicRng::from_seed(opts.seed);
    mosh_buffer(&mut rb, &opts, &mut rng);
    assert_ne!(rb.bytes, bytes);
}
