use gif_editor_core::fingerprint::{compute_phash, gradient_hash, hamming_distance};
use gif_editor_core::frame::Frame;

fn solid(width: u32, height: u32, rgb: [u8; 3]) -> Frame {
    let mut pixels = Vec::new();
    for _ in 0..(width * height) {
        pixels.extend_from_slice(&rgb);
    }
    Frame::new(0, 10, width, height, pixels).unwrap()
}

#[test]
fn hamming_distance_counts_differing_bits() {
    assert_eq!(hamming_distance(0, 0), 0);
    assert_eq!(hamming_distance(0, u64::MAX), 64);
    assert_eq!(hamming_distance(0b1011, 0b0010), 2);
    assert_eq!(hamming_distance(1 << 63, 0), 1);
    assert_eq!(hamming_distance(0xF0F0, 0x0F0F), 16);
}

#[test]
fn hamming_distance_is_symmetric_and_zero_on_equal() {
    let a = 0xDEAD_BEEF_0123_4567u64;
    let b = 0x0F0F_F0F0_AAAA_5555u64;
    assert_eq!(hamming_distance(a, b), hamming_distance(b, a));
    assert_eq!(hamming_distance(a, b), (a ^ b).count_ones());
    assert_eq!(hamming_distance(a, a), 0);
    assert!(hamming_distance(a, b) <= 64);
}

#[test]
fn gradient_hash_of_flat_grid_is_zero() {
    assert_eq!(gradient_hash(&vec![7u8; 72]), Some(0));
}

#[test]
fn gradient_hash_rejects_other_sizes() {
    assert_eq!(gradient_hash(&vec![0u8; 71]), None);
    assert_eq!(gradient_hash(&vec![0u8; 73]), None);
    assert_eq!(gradient_hash(&Vec::new()), None);
}

#[test]
fn gradient_hash_packs_bits_row_major() {
    let mut falling = Vec::new();
    for _ in 0..8 {
        for x in 0..9u8 {
            falling.push(100 - x);
        }
    }
    assert_eq!(gradient_hash(&falling), Some(u64::MAX));

    let mut first = vec![0u8; 72];
    first[0] = 1;
    assert_eq!(gradient_hash(&first), Some(1));

    let mut second_row = vec![0u8; 72];
    second_row[9] = 1;
    assert_eq!(gradient_hash(&second_row), Some(1 << 8));

    let mut last = vec![0u8; 72];
    last[7 * 9 + 7] = 1;
    assert_eq!(gradient_hash(&last), Some(1 << 63));

    let mut rising = Vec::new();
    for _ in 0..8 {
        for x in 0..9u8 {
            rising.push(x);
        }
    }
    assert_eq!(gradient_hash(&rising), Some(0));
}

#[test]
fn uniform_frame_hashes_to_zero() {
    assert_eq!(compute_phash(&solid(40, 30, [200, 10, 90])), Some(0));
    assert_eq!(compute_phash(&solid(3, 2, [0, 0, 0])), Some(0));
}

#[test]
fn hashing_is_deterministic() {
    let mut pixels = Vec::new();
    for i in 0..(31u32 * 17 * 3) {
        pixels.push(((i * 37 + i / 7) % 251) as u8);
    }
    let frame = Frame::new(0, 5, 31, 17, pixels.clone()).unwrap();
    let copy = Frame::new(9, 50, 31, 17, pixels).unwrap();
    let first = compute_phash(&frame).unwrap();
    assert_eq!(compute_phash(&frame), Some(first));
    assert_eq!(hamming_distance(first, compute_phash(&copy).unwrap()), 0);
}

#[test]
fn falling_brightness_sets_every_bit() {
    let (width, height) = (90u32, 80u32);
    let mut pixels = Vec::new();
    for _ in 0..height {
        for x in 0..width {
            let level = (250 - 2 * x) as u8;
            pixels.extend_from_slice(&[level, level, level]);
        }
    }
    let frame = Frame::new(0, 10, width, height, pixels).unwrap();
    assert_eq!(compute_phash(&frame), Some(u64::MAX));
}

#[test]
fn grid_sized_frame_is_hashed_by_its_own_brightness() {
    // red has brightness 21, blue 18, green 182
    let mut pixels = Vec::new();
    for _ in 0..8 {
        for x in 0..9 {
            let rgb: [u8; 3] = if x % 2 == 0 { [100, 0, 0] } else { [0, 0, 255] };
            pixels.extend_from_slice(&rgb);
        }
    }
    let frame = Frame::new(0, 10, 9, 8, pixels).unwrap();
    let mut expected = 0u64;
    for row in 0..8 {
        for col in 0..8 {
            if col % 2 == 0 {
                expected |= 1 << (row * 8 + col);
            }
        }
    }
    assert_eq!(compute_phash(&frame), Some(expected));
}

#[test]
fn small_frames_are_upsampled() {
    let pixels = vec![255, 255, 255, 0, 0, 0];
    let frame = Frame::new(0, 10, 2, 1, pixels).unwrap();
    let hash = compute_phash(&frame).unwrap();
    assert_ne!(hash, 0);
}

#[test]
fn single_pixel_is_hashed() {
    let frame = Frame::new(0, 10, 1, 1, vec![9, 200, 30]).unwrap();
    assert_eq!(compute_phash(&frame), Some(0));
    let column = Frame::new(0, 10, 1, 3, vec![0, 0, 0, 255, 255, 255, 0, 0, 0]).unwrap();
    assert_eq!(compute_phash(&column), Some(0));
}

#[test]
fn empty_frames_are_not_hashed() {
    let frame = Frame::new(0, 10, 0, 5, Vec::new()).unwrap();
    assert_eq!(compute_phash(&frame), None);
    let broken = Frame { index: 0, delay: 1, width: 2, height: 2, pixels: vec![0; 5] };
    assert!(!broken.is_well_formed());
    assert_eq!(compute_phash(&broken), None);
}

#[test]
fn frame_new_checks_the_buffer() {
    assert!(Frame::new(0, 0, 2, 2, vec![0; 12]).is_some());
    assert!(Frame::new(0, 0, 2, 2, vec![0; 11]).is_none());
    assert!(Frame::new(0, 0, 2, 2, vec![0; 13]).is_none());
}
