//! Decoded frames: one RGB image at one position of a sequence.

use vstd::prelude::*;
use crate::error::JobError;
use crate::gifdata::{decoding_error_text, gif_first_image, read_first_image};

verus! {

/// One image of a sequence, as 8-bit RGB in row-major order.
pub struct Frame {
    /// Position of the frame in its sequence.
    pub index: u32,
    /// Display time in hundredths of a second.
    pub delay: u64,
    pub width: u32,
    pub height: u32,
    /// `width * height` pixels of three bytes each.
    pub pixels: Vec<u8>,
}

/// Number of bytes of an RGB image of the given size.
pub open spec fn rgb_len(width: int, height: int) -> int {
    width * height * 3
}

impl Frame {
    /// The pixel buffer has exactly the size that the dimensions call for.
    pub open spec fn wf(&self) -> bool {
        self.pixels@.len() == rgb_len(self.width as int, self.height as int)
    }

    /// Builds a frame, or `None` where the buffer does not match the dimensions.
    pub fn new(index: u32, delay: u64, width: u32, height: u32, pixels: Vec<u8>) -> (out: Option<
        Frame,
    >)
        ensures
            out is Some <==> pixels@.len() == rgb_len(width as int, height as int),
            out matches Some(f) ==> f.wf() && f.index == index && f.delay == delay && f.width
                == width && f.height == height && f.pixels@ == pixels@,
    {
        if has_rgb_len(pixels.len(), width, height) {
            Some(Frame { index, delay, width, height, pixels })
        } else {
            None
        }
    }

    /// Whether the pixel buffer matches the dimensions.
    pub fn is_well_formed(&self) -> (ok: bool)
        ensures
            ok == self.wf(),
    {
        has_rgb_len(self.pixels.len(), self.width, self.height)
    }
}

/// Whether `len` is the byte length of an RGB image of the given size.
pub fn has_rgb_len(len: usize, width: u32, height: u32) -> (ok: bool)
    ensures
        ok == (len == rgb_len(width as int, height as int)),
{
    assert(width * height <= 0xffff_ffff * 0xffff_ffff) by (nonlinear_arith)
        requires
            width <= 0xffff_ffff,
            height <= 0xffff_ffff,
    ;
    let area: u128 = (width as u128) * (height as u128);
    let bytes: u128 = area * 3;
    bytes == len as u128
}


/// One image as a GIF stores it: a colour index for each pixel, and the
/// palettes that the indices may refer to.
pub struct IndexedFrame {
    /// Width of the logical screen.
    pub width: u16,
    /// Height of the logical screen.
    pub height: u16,
    /// One colour index for each pixel, row by row.
    pub buffer: Vec<u8>,
    /// The image's own palette, three bytes for each colour.
    pub local_palette: Option<Vec<u8>>,
    /// The palette of the whole sequence, three bytes for each colour.
    pub global_palette: Option<Vec<u8>>,
}

/// An indexed image as plain values.
pub struct IndexedView {
    pub width: int,
    pub height: int,
    pub buffer: Seq<u8>,
    pub local_palette: Option<Seq<u8>>,
    pub global_palette: Option<Seq<u8>>,
}

impl View for IndexedFrame {
    type V = IndexedView;

    open spec fn view(&self) -> IndexedView {
        IndexedView {
            width: self.width as int,
            height: self.height as int,
            buffer: self.buffer@,
            local_palette: match self.local_palette {
                Some(p) => Some(p@),
                None => None,
            },
            global_palette: match self.global_palette {
                Some(p) => Some(p@),
                None => None,
            },
        }
    }
}

/// A decoded frame, and whether its colours had to be guessed.
pub struct DecodedFrame {
    pub frame: Frame,
    /// Set where the image came without any palette and its indices were
    /// taken for grey levels.
    pub degraded: bool,
}

impl IndexedView {
    /// The palette that applies: the image's own if it has one, else the
    /// shared one.
    pub open spec fn palette(self) -> Option<Seq<u8>> {
        if self.local_palette is Some {
            self.local_palette
        } else {
            self.global_palette
        }
    }

    /// Byte `channel` (0 red, 1 green, 2 blue) of pixel `i`: the palette's
    /// colour for the pixel's index; black where the palette has no such
    /// colour or the buffer no such pixel; without a palette the index
    /// itself, as a grey level.
    pub open spec fn channel(self, i: int, channel: int) -> u8 {
        if i >= self.buffer.len() {
            0
        } else {
            match self.palette() {
                Some(p) => if self.buffer[i] * 3 + 2 < p.len() {
                    p[self.buffer[i] * 3 + channel]
                } else {
                    0
                },
                None => self.buffer[i],
            }
        }
    }

    /// The image as RGB bytes.
    pub open spec fn rgb(self) -> Seq<u8> {
        Seq::new((self.width * self.height * 3) as nat, |j: int| self.channel(j / 3, j % 3))
    }

    /// Images that can be expanded: the buffer has no more pixels than the
    /// screen, and the RGB bytes can be addressed.
    pub open spec fn expandable(self) -> bool {
        &&& self.buffer.len() <= self.width * self.height
        &&& self.width * self.height * 3 <= usize::MAX
    }
}

/// Expands an indexed image to RGB: each pixel gets its colour from the
/// image's own palette, or from the shared one where it has none. `None`
/// for an image that cannot be expanded.
pub fn expand_indexed(image: &IndexedFrame, index: u32, delay: u64) -> (out: Option<DecodedFrame>)
    ensures
        out is Some <==> image@.expandable(),
        out matches Some(d) ==> d.frame.wf() && d.frame.index == index && d.frame.delay == delay
            && d.frame.width == image.width && d.frame.height == image.height
            && d.frame.pixels@ == image@.rgb() && (d.degraded <==> image@.palette() is None),
{
    let width = image.width as u64;
    let height = image.height as u64;
    assert(width * height <= 0xffff * 0xffff) by (nonlinear_arith)
        requires
            width <= 0xffff,
            height <= 0xffff,
    ;
    let count: u64 = width * height;
    if image.buffer.len() as u64 > count || count * 3 > usize::MAX as u64 {
        return None;
    }
    let palette: Option<&Vec<u8>> = match &image.local_palette {
        Some(p) => Some(p),
        None => match &image.global_palette {
            Some(p) => Some(p),
            None => None,
        },
    };
    let mut pixels: Vec<u8> = Vec::new();
    let mut i: usize = 0;
    while i < count as usize
        invariant
            i <= count,
            count == image.width * image.height,
            count * 3 <= usize::MAX,
            pixels@.len() == 3 * i,
            match palette {
                Some(p) => image@.palette() == Some(p@),
                None => image@.palette() is None,
            },
            forall|j: int| 0 <= j < 3 * i ==> pixels@[j] == image@.channel(j / 3, j % 3),
        decreases count - i,
    {
        let mut rgb: (u8, u8, u8) = (0, 0, 0);
        if i < image.buffer.len() {
            let value = image.buffer[i];
            match palette {
                Some(p) => {
                    let at = value as usize * 3;
                    if at + 2 < p.len() {
                        rgb = (p[at], p[at + 1], p[at + 2]);
                    }
                },
                None => {
                    rgb = (value, value, value);
                },
            }
        }
        pixels.push(rgb.0);
        pixels.push(rgb.1);
        pixels.push(rgb.2);
        i = i + 1;
    }
    assert(pixels@ =~= image@.rgb());
    let degraded = palette.is_none();
    Some(
        DecodedFrame {
            frame: Frame {
                index,
                delay,
                width: image.width as u32,
                height: image.height as u32,
                pixels,
            },
            degraded,
        },
    )
}

/// What decoding a GIF stream that holds one frame comes to.
pub open spec fn decodes_to(bytes: Seq<u8>) -> Option<IndexedView> {
    match gif_first_image(bytes) {
        Some(Some(image)) => if image.expandable() {
            Some(image)
        } else {
            None
        },
        _ => None,
    }
}

/// Decodes the first image of a GIF stream to an RGB frame.
///
/// Fails with `CodecError` where the decoder rejects the stream, where the
/// stream holds no image, and where the image cannot be expanded.
pub fn decode_frame(bytes: &Vec<u8>, index: u32, delay: u64) -> (out: Result<
    DecodedFrame,
    JobError,
>)
    ensures
        out is Ok <==> decodes_to(bytes@) is Some,
        out matches Err(e) ==> e is CodecError,
        out matches Ok(d) ==> d.frame.wf() && d.frame.index == index && d.frame.delay == delay
            && d.frame.width == decodes_to(bytes@)->0.width && d.frame.height == decodes_to(
            bytes@,
        )->0.height && d.frame.pixels@ == decodes_to(bytes@)->0.rgb() && (d.degraded
            <==> decodes_to(bytes@)->0.palette() is None),
{
    match read_first_image(bytes) {
        Ok(Some(image)) => {
            match expand_indexed(&image, index, delay) {
                Some(decoded) => Ok(decoded),
                None => Err(JobError::CodecError(String::from_str("image data exceeds the screen"))),
            }
        },
        Ok(None) => Err(JobError::CodecError(String::from_str("no image data"))),
        Err(error) => Err(JobError::CodecError(decoding_error_text(&error))),
    }
}

} // verus!
