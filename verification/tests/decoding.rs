use gif_editor_core::error::JobError;
use gif_editor_core::frame::{decode_frame, expand_indexed, IndexedFrame};
use std::borrow::Cow;

const PALETTE: [u8; 12] = [0, 0, 0, 255, 0, 0, 0, 255, 0, 0, 0, 255];

fn gif(screen: (u16, u16), frame: (u16, u16), indices: &[u8], local: Option<Vec<u8>>) -> Vec<u8> {
    let mut bytes = Vec::new();
    {
        let mut encoder = gif::Encoder::new(&mut bytes, screen.0, screen.1, &PALETTE).unwrap();
        let mut f = gif::Frame::default();
        f.width = frame.0;
        f.height = frame.1;
        f.buffer = Cow::Owned(indices.to_vec());
        f.palette = local;
        encoder.write_frame(&f).unwrap();
    }
    bytes
}

fn indexed(width: u16, height: u16, buffer: &[u8], local: Option<&[u8]>, global: Option<&[u8]>) -> IndexedFrame {
    IndexedFrame {
        width,
        height,
        buffer: buffer.to_vec(),
        local_palette: local.map(|p| p.to_vec()),
        global_palette: global.map(|p| p.to_vec()),
    }
}

#[test]
fn global_palette_is_applied() {
    let image = indexed(2, 2, &[0, 1, 2, 3], None, Some(&PALETTE));
    let d = expand_indexed(&image, 4, 9).unwrap();
    assert_eq!(d.frame.pixels, vec![0, 0, 0, 255, 0, 0, 0, 255, 0, 0, 0, 255]);
    assert_eq!((d.frame.index, d.frame.delay, d.frame.width, d.frame.height), (4, 9, 2, 2));
    assert!(!d.degraded);
    assert!(d.frame.is_well_formed());
}

#[test]
fn local_palette_wins() {
    let local = [9u8, 8, 7, 6, 5, 4];
    let image = indexed(2, 1, &[1, 0], Some(&local), Some(&PALETTE));
    let d = expand_indexed(&image, 0, 0).unwrap();
    assert_eq!(d.frame.pixels, vec![6, 5, 4, 9, 8, 7]);
    assert!(!d.degraded);
}

#[test]
fn index_outside_the_palette_is_black() {
    let image = indexed(3, 1, &[1, 4, 200], None, Some(&PALETTE));
    let d = expand_indexed(&image, 0, 0).unwrap();
    assert_eq!(d.frame.pixels, vec![255, 0, 0, 0, 0, 0, 0, 0, 0]);
    let ragged = indexed(2, 1, &[0, 1], None, Some(&[1, 2, 3, 4, 5]));
    assert_eq!(expand_indexed(&ragged, 0, 0).unwrap().frame.pixels, vec![1, 2, 3, 0, 0, 0]);
}

#[test]
fn without_a_palette_indices_are_grey_levels() {
    let image = indexed(2, 1, &[7, 200], None, None);
    let d = expand_indexed(&image, 0, 0).unwrap();
    assert_eq!(d.frame.pixels, vec![7, 7, 7, 200, 200, 200]);
    assert!(d.degraded);
}

#[test]
fn short_buffer_leaves_black() {
    let image = indexed(2, 2, &[1], None, Some(&PALETTE));
    let d = expand_indexed(&image, 0, 0).unwrap();
    assert_eq!(d.frame.pixels, vec![255, 0, 0, 0, 0, 0, 0, 0, 0, 0, 0, 0]);
    let empty = indexed(0, 0, &[], None, None);
    assert_eq!(expand_indexed(&empty, 0, 0).unwrap().frame.pixels, Vec::<u8>::new());
}

#[test]
fn long_buffer_is_refused() {
    assert!(expand_indexed(&indexed(1, 1, &[0, 1], None, Some(&PALETTE)), 0, 0).is_none());
    assert!(expand_indexed(&indexed(0, 5, &[0], None, None), 0, 0).is_none());
}

#[test]
fn gif_is_decoded_with_its_global_palette() {
    let bytes = gif((2, 2), (2, 2), &[3, 2, 1, 0], None);
    let d = decode_frame(&bytes, 1, 20).unwrap();
    assert_eq!(d.frame.pixels, vec![0, 0, 255, 0, 255, 0, 255, 0, 0, 0, 0, 0]);
    assert_eq!((d.frame.index, d.frame.delay, d.frame.width, d.frame.height), (1, 20, 2, 2));
    assert!(!d.degraded);
}

#[test]
fn gif_is_decoded_with_its_local_palette() {
    let bytes = gif((2, 1), (2, 1), &[0, 1], Some(vec![10, 20, 30, 40, 50, 60]));
    let d = decode_frame(&bytes, 0, 0).unwrap();
    assert_eq!(d.frame.pixels, vec![10, 20, 30, 40, 50, 60]);
}

#[test]
fn frame_smaller_than_the_screen_fills_from_the_start() {
    let bytes = gif((3, 2), (2, 2), &[1, 1, 2, 2], None);
    let d = decode_frame(&bytes, 0, 0).unwrap();
    assert_eq!((d.frame.width, d.frame.height), (3, 2));
    assert_eq!(
        d.frame.pixels,
        vec![255, 0, 0, 255, 0, 0, 0, 255, 0, 0, 255, 0, 0, 0, 0, 0, 0, 0]
    );
}

#[test]
fn frame_larger_than_the_screen_is_a_codec_error() {
    let bytes = gif((1, 1), (2, 2), &[0, 1, 2, 3], None);
    assert!(matches!(decode_frame(&bytes, 0, 0), Err(JobError::CodecError(_))));
}

#[test]
fn broken_stream_is_a_codec_error() {
    assert!(matches!(decode_frame(&b"not a gif".to_vec(), 0, 0), Err(JobError::CodecError(_))));
    assert!(matches!(decode_frame(&Vec::new(), 0, 0), Err(JobError::CodecError(_))));
    let mut cut = gif((2, 2), (2, 2), &[3, 2, 1, 0], None);
    cut.truncate(cut.len() / 2);
    assert!(matches!(decode_frame(&cut, 0, 0), Err(JobError::CodecError(_))));
}

#[test]
fn stream_without_an_image_is_a_codec_error() {
    let mut bytes = Vec::new();
    {
        let _encoder = gif::Encoder::new(&mut bytes, 2, 2, &PALETTE).unwrap();
    }
    assert!(matches!(decode_frame(&bytes, 0, 0), Err(JobError::CodecError(_))));
}

#[test]
fn decoding_is_repeatable() {
    let bytes = gif((2, 2), (2, 2), &[0, 1, 2, 3], None);
    let a = decode_frame(&bytes, 0, 0).unwrap();
    let b = decode_frame(&bytes, 0, 0).unwrap();
    assert_eq!(a.frame.pixels, b.frame.pixels);
}
