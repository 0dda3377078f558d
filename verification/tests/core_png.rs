use webpixels::Core;
use webpixels::buffer::MoshError;

fn png_bytes(width: u32, height: u32, color: png::ColorType, data: &[u8]) -> Vec<u8> {
    let mut out = Vec::new();
    {
        let mut enc = png::Encoder::new(&mut out, width, height);
        enc.set_color(color);
        enc.set_depth(png::BitDepth::Eight);
        let mut writer = enc.write_header().unwrap();
        writer.write_image_data(data).unwrap();
    }
    out
}

fn decode(data: &[u8]) -> (u32, u32, Vec<u8>) {
    let dec = png::Decoder::new(std::io::Cursor::new(data));
    let mut reader = dec.read_info().unwrap();
    let mut buf = vec![0u8; reader.output_buffer_size().unwrap()];
    let info = reader.next_frame(&mut buf).unwrap();
    buf.truncate(info.buffer_size());
    (info.width, info.height, buf)
}

#[test]
fn valid_image() {
    let input = png_bytes(4, 4, png::ColorType::Rgb, &[7u8; 48]);
    let mut core = Core::default();
    let result = core.pixelmosh(&input);
    assert!(result.is_ok());
}

#[test]
fn invalid_image() {
    let mut core = Core::default();
    let result = core.pixelmosh(b"definitely not a png container");
    assert!(matches!(result, Err(MoshError::DecodeFailed)));
}

#[test]
fn zero_rate_round_trips_the_pixels() {
    // A 4x4 RGB image of zero bytes with the rate window pinned to zero:
    // the re-encoded container decodes to the identical all-zero buffer
    // with unchanged geometry.
    let input = png_bytes(4, 4, png::ColorType::Rgb, &[0u8; 48]);
    let mut core = Core::default();
    core.set_min_rate(0);
    core.set_max_rate(0);
    let out = core.pixelmosh(&input).expect("pixelmosh succeeds");
    let (w, h, pixels) = decode(&out);
    assert_eq!((w, h), (4, 4));
    assert_eq!(pixels, vec![0u8; 48]);
}

#[test]
fn pixelmosh_is_deterministic() {
    let data: Vec<u8> = (0..48).map(|i| (i * 5) as u8).collect();
    let input = png_bytes(4, 4, png::ColorType::Rgb, &data);
    let mut a = Core::default();
    let mut b = Core::default();
    let out_a = a.pixelmosh(&input).expect("first run succeeds");
    let out_b = b.pixelmosh(&input).expect("second run succeeds");
    assert_eq!(out_a, out_b);
}

#[test]
fn pixelmosh_preserves_geometry() {
    let data: Vec<u8> = (0..60).map(|i| (i * 3) as u8).collect();
    let input = png_bytes(5, 3, png::ColorType::Rgba, &data);
    let mut core = Core::default();
    core.set_min_rate(100);
    core.set_max_rate(100);
    let out = core.pixelmosh(&input).expect("pixelmosh succeeds");
    let (w, h, pixels) = decode(&out);
    assert_eq!((w, h), (5, 3));
    assert_eq!(pixels.len(), 60);
}

#[test]
fn pixelmosh_keeps_the_options() {
    let input = png_bytes(2, 2, png::ColorType::Grayscale, &[1, 2, 3, 4]);
    let mut core = Core::default();
    let seed_before = core.seed();
    core.pixelmosh(&input).expect("pixelmosh succeeds");
    assert_eq!(core.seed(), seed_before);
    assert_eq!(core.min_rate(), 1);
    assert_eq!(core.max_rate(), 7);
}

#[test]
fn default_options_are_documented_and_stable() {
    let core = Core::default();
    assert_eq!(core.min_rate(), 1);
    assert_eq!(core.max_rate(), 7);
    assert_eq!(core.pixelation(), 10);
    assert_eq!(core.line_shift(), 300);
    assert_eq!(core.reverse(), 300);
    assert_eq!(core.flip(), 300);
    assert_eq!(core.channel_swap(), 300);
    assert_eq!(core.channel_shift(), 300);
    assert_eq!(core.seed(), 42);
}

#[test]
fn setters_store_what_they_are_given() {
    let mut core = Core::default();
    core.set_min_rate(11);
    core.set_max_rate(60);
    core.set_pixelation(9);
    core.set_line_shift(100);
    core.set_reverse(200);
    core.set_flip(301);
    core.set_channel_swap(400);
    core.set_channel_shift(500);
    assert_eq!(core.min_rate(), 11);
    assert_eq!(core.max_rate(), 60);
    assert_eq!(core.pixelation(), 9);
    assert_eq!(core.line_shift(), 100);
    assert_eq!(core.reverse(), 200);
    assert_eq!(core.flip(), 301);
    assert_eq!(core.channel_swap(), 400);
    assert_eq!(core.channel_shift(), 500);
}

#[test]
fn new_seed_keeps_every_other_option() {
    let mut core = Core::default();
    core.set_min_rate(13);
    core.set_channel_swap(650);
    core.new_seed();
    assert_eq!(core.min_rate(), 13);
    assert_eq!(core.max_rate(), 7);
    assert_eq!(core.pixelation(), 10);
    assert_eq!(core.channel_swap(), 650);
}
