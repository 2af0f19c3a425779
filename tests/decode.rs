use tinyqoi::color::hash_pixel;
use tinyqoi::{Color, Error, Qoi};

const END: [u8; 8] = [0, 0, 0, 0, 0, 0, 0, 1];

fn header(width: u32, height: u32) -> Vec<u8> {
    let mut v = b"qoif".to_vec();
    v.extend_from_slice(&width.to_be_bytes());
    v.extend_from_slice(&height.to_be_bytes());
    v.push(3);
    v.push(0);
    v
}

fn image_bytes(width: u32, height: u32, body: &[u8]) -> Vec<u8> {
    let mut v = header(width, height);
    v.extend_from_slice(body);
    v.extend_from_slice(&END);
    v
}

/// A 3x3 image: red, green, blue; a row of white; a row of black.
fn colors_qoi() -> Vec<u8> {
    image_bytes(
        3,
        3,
        &[
            0xfe, 255, 0, 0, // red
            0xfe, 0, 255, 0, // green
            0xfe, 0, 0, 255, // blue
            0xfe, 255, 255, 255, // white
            0xc1, // white twice more
            0xfe, 0, 0, 0, // black
            0xc1, // black twice more
        ],
    )
}

fn decode(body: &[u8]) -> Vec<Color> {
    let data = image_bytes(1, 1, body);
    let qoi = Qoi::new(&data).unwrap();
    qoi.pixel_vec()
}

fn rgb(r: u8, g: u8, b: u8) -> Color {
    Color::new(r, g, b)
}

#[test]
fn invalid_magic() {
    let data = b"not a valid qoi file!!!!!!!!";
    assert_eq!(Qoi::new(data), Err(Error::InvalidMagic));
}

#[test]
fn truncated_header() {
    let data = b"too short";
    assert_eq!(Qoi::new(data), Err(Error::TruncatedFile));
}

#[test]
fn truncated_file() {
    let data = colors_qoi();
    let (_, data) = data.split_last().unwrap();
    assert_eq!(Qoi::new(data), Err(Error::TruncatedFile));
}

#[test]
fn image() {
    let data = colors_qoi();
    let qoi = Qoi::new(&data).unwrap();
    assert_eq!(qoi.size(), (3, 3));

    let red = rgb(255, 0, 0);
    let green = rgb(0, 255, 0);
    let blue = rgb(0, 0, 255);
    let white = rgb(255, 255, 255);
    let black = rgb(0, 0, 0);
    assert_eq!(
        qoi.pixel_vec(),
        vec![red, green, blue, white, white, white, black, black, black]
    );
}

#[test]
fn short_buffers_are_truncated() {
    for len in 0..22 {
        let data = vec![b'q'; len];
        assert_eq!(Qoi::new(&data), Err(Error::TruncatedFile));
    }
    let mut data = header(0, 0);
    data.extend_from_slice(&END[..7]);
    assert_eq!(data.len(), 21);
    assert_eq!(Qoi::new(&data), Err(Error::TruncatedFile));
}

#[test]
fn bad_magic_in_well_formed_buffer() {
    let mut data = colors_qoi();
    data[3] = b'g';
    assert_eq!(Qoi::new(&data), Err(Error::InvalidMagic));
}

#[test]
fn bad_magic_wins_over_bad_end_marker() {
    let data = vec![0u8; 30];
    assert_eq!(Qoi::new(&data), Err(Error::InvalidMagic));
}

#[test]
fn bad_end_marker() {
    let mut data = colors_qoi();
    let n = data.len();
    data[n - 8] = 9;
    assert_eq!(Qoi::new(&data), Err(Error::TruncatedFile));
    let mut data = header(1, 1);
    data.extend_from_slice(&[0, 0, 0, 0, 0, 0, 0, 0]);
    assert_eq!(Qoi::new(&data), Err(Error::TruncatedFile));
}

#[test]
fn smallest_accepted_buffer() {
    let data = image_bytes(0x0102_0304, 0xa0b0_c0d0, &[]);
    assert_eq!(data.len(), 22);
    let qoi = Qoi::new(&data).unwrap();
    assert_eq!(qoi.size(), (0x0102_0304, 0xa0b0_c0d0));
    assert_eq!(qoi.pixel_vec(), vec![]);
    assert_eq!(qoi.pixels().next(), None);
}

#[test]
fn channel_and_colorspace_are_not_checked() {
    let mut data = colors_qoi();
    data[12] = 200;
    data[13] = 77;
    let qoi = Qoi::new(&data).unwrap();
    assert_eq!(qoi.pixel_vec().len(), 9);
}

#[test]
fn end_to_end_three_rows() {
    let mut body = Vec::new();
    for _ in 0..3 {
        body.extend_from_slice(&[0xfe, 10, 20, 30]);
    }
    for _ in 0..3 {
        body.extend_from_slice(&[0xfe, 40, 50, 60]);
    }
    for _ in 0..3 {
        body.extend_from_slice(&[0xfe, 70, 80, 90]);
    }
    let data = image_bytes(3, 3, &body);
    let qoi = Qoi::new(&data).unwrap();
    assert_eq!(qoi.size(), (3, 3));
    let mut it = qoi.pixels();
    let mut seen = Vec::new();
    for _ in 0..9 {
        seen.push(it.next().unwrap());
    }
    assert_eq!(it.next(), None);
    let a = rgb(10, 20, 30);
    let b = rgb(40, 50, 60);
    let c = rgb(70, 80, 90);
    assert_eq!(seen, vec![a, a, a, b, b, b, c, c, c]);
}

#[test]
fn passes_are_independent() {
    let data = colors_qoi();
    let qoi = Qoi::new(&data).unwrap();
    let mut first = qoi.pixels();
    let _ = first.next();
    let _ = first.next();
    let mut second = qoi.pixels();
    assert_eq!(second.next(), Some(rgb(255, 0, 0)));
    assert_eq!(first.next(), Some(rgb(0, 0, 255)));
    assert_eq!(qoi.pixel_vec(), qoi.pixel_vec());
}

#[test]
fn run_repeats_previous_color() {
    let data = image_bytes(8, 1, &[0xfe, 10, 20, 30, 0b1100_0101, 0xfe, 1, 2, 3]);
    let qoi = Qoi::new(&data).unwrap();
    let mut it = qoi.pixels();
    assert_eq!(it.next(), Some(rgb(10, 20, 30)));
    for _ in 0..6 {
        assert_eq!(it.next(), Some(rgb(10, 20, 30)));
    }
    assert_eq!(it.next(), Some(rgb(1, 2, 3)));
    assert_eq!(it.next(), None);
}

#[test]
fn run_at_start_repeats_black() {
    assert_eq!(decode(&[0xc2]), vec![rgb(0, 0, 0); 3]);
    assert_eq!(decode(&[0xfd]).len(), 62);
}

#[test]
fn index_after_resolve() {
    let h = hash_pixel(rgb(10, 20, 30), 255);
    assert_eq!(h, 9);
    let data = image_bytes(3, 1, &[0xfe, 10, 20, 30, h, 0xfe, 1, 1, 1]);
    let qoi = Qoi::new(&data).unwrap();
    let mut it = qoi.pixels();
    assert_eq!(it.next(), Some(rgb(10, 20, 30)));
    assert_eq!(it.next(), Some(rgb(10, 20, 30)));
    assert_eq!(it.next(), Some(rgb(1, 1, 1)));
    assert_eq!(it.next(), None);
}

#[test]
fn index_uses_alpha_in_hash() {
    let h = hash_pixel(rgb(1, 2, 3), 4);
    assert_eq!(h, 14);
    assert_eq!(decode(&[0xff, 1, 2, 3, 4, 14]), vec![rgb(1, 2, 3), rgb(1, 2, 3)]);
    // Slot 14 under the initial alpha 255 holds black.
    assert_eq!(decode(&[0xfe, 1, 2, 3, 14]), vec![rgb(1, 2, 3), rgb(0, 0, 0)]);
}

#[test]
fn index_after_index_may_differ() {
    // (0, 0, 29) with alpha 255 lands in slot 0; slot 5 still holds black
    // with alpha 0, whose hash is 0 too.
    assert_eq!(hash_pixel(rgb(0, 0, 29), 255), 0);
    assert_eq!(
        decode(&[0xfe, 0, 0, 29, 0x05, 0x00]),
        vec![rgb(0, 0, 29), rgb(0, 0, 0), rgb(0, 0, 29)]
    );
}

#[test]
fn hash_values() {
    assert_eq!(hash_pixel(rgb(0, 0, 0), 0), 0);
    assert_eq!(hash_pixel(rgb(0, 0, 0), 255), 53);
    assert_eq!(hash_pixel(rgb(255, 255, 255), 255), (26 * 255 % 256 % 64) as u8);
}

#[test]
fn diff_wraps() {
    // dr = 0 (-2), dg = 2 (0), db = 2 (0), from black.
    assert_eq!(decode(&[0b0100_1010]), vec![rgb(254, 0, 0)]);
    // dr = 3 (+1) from 255 wraps to 0.
    assert_eq!(decode(&[0xfe, 255, 7, 7, 0b0111_1010]), vec![rgb(255, 7, 7), rgb(0, 7, 7)]);
    assert_eq!(decode(&[0b0101_0101]), vec![rgb(255, 255, 255)]);
}

#[test]
fn luma_deltas() {
    // dg = 8, dr = 1 + 8, db = -1 + 8, from black.
    assert_eq!(decode(&[0x80 | 40, 0x97]), vec![rgb(9, 8, 7)]);
    // dg = -32, dr = db = -32: wraps to 224.
    assert_eq!(decode(&[0x80, 0x88]), vec![rgb(224, 224, 224)]);
    // dg = 31, dr = 31 + 7, db = 31 - 8, from (250, 250, 250).
    assert_eq!(
        decode(&[0xfe, 250, 250, 250, 0x80 | 63, 0xf0]),
        vec![rgb(250, 250, 250), rgb(32, 25, 17)]
    );
}

#[test]
fn incomplete_chunks_end_the_sequence() {
    assert_eq!(decode(&[0xfe, 1, 2]), vec![]);
    assert_eq!(decode(&[0xff, 1, 2, 3]), vec![]);
    assert_eq!(decode(&[0x80]), vec![]);
    assert_eq!(decode(&[0xfe, 1, 2, 3, 0xfe, 4]), vec![rgb(1, 2, 3)]);
}

#[test]
fn rgba_keeps_color_and_sets_alpha() {
    assert_eq!(decode(&[0xff, 9, 8, 7, 0]), vec![rgb(9, 8, 7)]);
}

#[test]
fn exhausted_cursor_stays_exhausted() {
    let data = image_bytes(1, 1, &[0xfe, 1, 2, 3]);
    let qoi = Qoi::new(&data).unwrap();
    let mut it = qoi.pixels();
    assert_eq!(it.next(), Some(rgb(1, 2, 3)));
    assert_eq!(it.next(), None);
    assert_eq!(it.next(), None);
}

#[test]
fn body_excludes_header_and_end_marker() {
    let data = image_bytes(1, 1, &[]);
    let mut longer = data.clone();
    longer.extend_from_slice(&END);
    // The first end marker is now part of the body: seven INDEX chunks of
    // slot 0 and one of slot 1.
    let qoi = Qoi::new(&longer).unwrap();
    assert_eq!(qoi.pixel_vec(), vec![rgb(0, 0, 0); 8]);
}
