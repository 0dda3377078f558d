use webpixels::transforms::flip_row;
use webpixels::transforms::pixelate_row;
use webpixels::transforms::reverse_row;
use webpixels::transforms::rotate_row;
use webpixels::transforms::shift_channel_row;
use webpixels::transforms::swap_channels_row;

#[test]
fn reverse_once_and_twice() {
    // An 8-byte row reversed once, then reversed again back to the start.
    let mut row = vec![1u8, 2, 3, 4, 5, 6, 7, 8];
    reverse_row(&mut row, 0, 8);
    assert_eq!(row, vec![8, 7, 6, 5, 4, 3, 2, 1]);
    reverse_row(&mut row, 0, 8);
    assert_eq!(row, vec![1, 2, 3, 4, 5, 6, 7, 8]);
}

#[test]
fn reverse_touches_only_its_row() {
    let mut buf = vec![1u8, 2, 3, 4, 5, 6];
    reverse_row(&mut buf, 2, 3);
    assert_eq!(buf, vec![1, 2, 5, 4, 3, 6]);
}

#[test]
fn rotate_left_by_offset() {
    let mut row = vec![10u8, 20, 30, 40, 50];
    rotate_row(&mut row, 0, 5, 2);
    assert_eq!(row, vec![30, 40, 50, 10, 20]);
}

#[test]
fn flip_copies_reference_row() {
    // Two rows of 3 bytes; the first is overwritten with the second.
    let mut buf = vec![1u8, 2, 3, 9, 8, 7];
    flip_row(&mut buf, 0, 3, 3);
    assert_eq!(buf, vec![9, 8, 7, 9, 8, 7]);
}

#[test]
fn swap_exchanges_channel_planes() {
    // One RGB pixel (255, 0, 0); swapping planes 0 and 2 gives (0, 0, 255).
    let mut row = vec![255u8, 0, 0];
    swap_channels_row(&mut row, 0, 1, 3, 1, 0, 2);
    assert_eq!(row, vec![0, 0, 255]);
}

#[test]
fn swap_two_pixels_wide_samples() {
    // Two 2-channel samples of 2 bytes each: planes swapped per sample.
    let mut row = vec![1u8, 2, 3, 4, 5, 6, 7, 8];
    swap_channels_row(&mut row, 0, 2, 2, 2, 0, 1);
    assert_eq!(row, vec![3, 4, 1, 2, 7, 8, 5, 6]);
}

#[test]
fn shift_saturates_at_both_ends() {
    // Three RGB pixels; plane 0 shifted up by 200 saturates at 255.
    let mut row = vec![100u8, 5, 5, 250, 5, 5, 0, 5, 5];
    shift_channel_row(&mut row, 0, 3, 3, 1, 0, true, 200);
    assert_eq!(row, vec![255, 5, 5, 255, 5, 5, 200, 5, 5]);
    // And shifted down by 210 saturates at 0.
    shift_channel_row(&mut row, 0, 3, 3, 1, 0, false, 210);
    assert_eq!(row, vec![45, 5, 5, 45, 5, 5, 0, 5, 5]);
}

#[test]
fn pixelate_block_one_is_identity() {
    let mut row = vec![9u8, 17, 4, 200, 33, 91];
    pixelate_row(&mut row, 0, 6, 1, 1, 1);
    assert_eq!(row, vec![9, 17, 4, 200, 33, 91]);
}

#[test]
fn pixelate_averages_blocks() {
    // Four grayscale samples in blocks of two: (10+20)/2 and (30+40)/2.
    let mut row = vec![10u8, 20, 30, 40];
    pixelate_row(&mut row, 0, 4, 1, 1, 2);
    assert_eq!(row, vec![15, 15, 35, 35]);
}

#[test]
fn pixelate_short_last_block() {
    // Five samples in blocks of two: the last block is a single sample.
    let mut row = vec![10u8, 20, 30, 40, 50];
    pixelate_row(&mut row, 0, 5, 1, 1, 2);
    assert_eq!(row, vec![15, 15, 35, 35, 50]);
}

#[test]
fn pixelate_is_per_channel() {
    // Two RGB pixels, block 2: each channel plane averaged separately.
    let mut row = vec![10u8, 100, 2, 20, 200, 4];
    pixelate_row(&mut row, 0, 2, 3, 1, 2);
    assert_eq!(row, vec![15, 150, 3, 15, 150, 3]);
}
