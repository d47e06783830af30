//! GIF decoding, which the `gif` crate performs.
//!
//! Nothing in this file is proved: each function states what the crate's
//! code does, and the rest of the library builds on those statements.

use vstd::prelude::*;
use crate::frame::{IndexedFrame, IndexedView};

verus! {

/// The error that the `gif` crate's decoder reports.
#[verifier::external_type_specification]
#[verifier::external_body]
pub struct ExDecodingError(gif::DecodingError);

/// What decoding the first image of a GIF stream yields: `None` where the
/// decoder reports an error, `Some(None)` where the stream holds no image.
pub uninterp spec fn gif_first_image(bytes: Seq<u8>) -> Option<Option<IndexedView>>;

/// Decodes the first image of a GIF stream held in memory, with
/// `gif::Decoder::new` and `gif::Decoder::read_next_frame`, and copies out
/// the logical screen size, the colour indices and the two palettes. The
/// decoder reads nothing but the bytes it is given, so the outcome depends
/// on them alone.
#[verifier::external_body]
pub(crate) fn read_first_image(bytes: &Vec<u8>) -> (out: Result<
    Option<IndexedFrame>,
    gif::DecodingError,
>)
    ensures
        match out {
            Ok(Some(image)) => gif_first_image(bytes@) == Some(Some(image@)),
            Ok(None) => gif_first_image(bytes@) == Some(None::<IndexedView>),
            Err(_) => gif_first_image(bytes@) is None,
        },
{
    let mut decoder = gif::Decoder::new(bytes.as_slice())?;
    let (width, height) = (decoder.width(), decoder.height());
    let global_palette = decoder.global_palette().map(|p| p.to_vec());
    match decoder.read_next_frame()? {
        Some(f) => Ok(Some(IndexedFrame {
            width,
            height,
            buffer: f.buffer.to_vec(),
            local_palette: f.palette.clone(),
            global_palette,
        })),
        None => Ok(None),
    }
}

/// The text of a decoding error, as its `Display` impl writes it.
#[verifier::external_body]
pub(crate) fn decoding_error_text(error: &gif::DecodingError) -> (text: String) {
    format!("{}", error)
}

} // verus!
