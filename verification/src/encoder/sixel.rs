//! The Sixel graphics protocol encoder, built on the `icy_sixel` crate.

use vstd::prelude::*;
use vstd::string::to_string_from_display_ensures;
use crate::encoder::{outcome_view, EncoderError, ErrorView};
use crate::framebuffer::{flatten_rgba, holds_pixels_in_order, lemma_rgba_bytes_layout, rgba_bytes, FrameBuffer, FrameView};
use crate::text::decimal;

verus! {

#[verifier::external_type_specification]
#[verifier::external_body]
pub struct ExSixelError(icy_sixel::SixelError);

/// What `icy_sixel` produces with its default options for a `width x height`
/// RGBA image: the bytes of the Sixel sequence, or the `Display` text of the
/// error it reports. Colour quantisation and run-length coding are the
/// crate's own.
pub uninterp spec fn sixel_output(rgba: Seq<u8>, width: usize, height: usize) -> Result<Seq<u8>, Seq<char>>;

/// The opening of a Sixel sequence for a `width x height` image with square
/// pixels and a transparent background:
/// `ESC P 9 ; 1 ; 0 q " 1 ; 1 ; <width> ; <height>` (DCS introducer, aspect
/// ratio, background mode, grid size, the `q` mode letter, then the raster
/// attributes).
pub open spec fn sixel_header(width: usize, height: usize) -> Seq<u8> {
    seq![0x1bu8, 0x50u8, 0x39u8, 0x3bu8, 0x31u8, 0x3bu8, 0x30u8, 0x71u8, 0x22u8, 0x31u8, 0x3bu8, 0x31u8, 0x3bu8]
        + decimal(width as nat) + seq![0x3bu8] + decimal(height as nat)
}

/// `ESC \`: the string terminator that closes a Sixel sequence.
pub open spec fn string_terminator() -> Seq<u8> {
    seq![0x1bu8, 0x5cu8]
}

/// `bytes` opens with the Sixel header for `width x height` and closes with
/// the string terminator.
pub open spec fn sixel_framed(bytes: Seq<u8>, width: usize, height: usize) -> bool {
    let h = sixel_header(width, height);
    &&& bytes.len() >= h.len() + 2
    &&& bytes.take(h.len() as int) == h
    &&& bytes.skip(bytes.len() - 2) == string_terminator()
}

/// `icy_sixel::SixelImage::from_rgba(rgba, width, height).encode()`, with the
/// resulting `String` taken as its UTF-8 bytes. Building the image only
/// stores its arguments. The encoding fails on a zero dimension; every
/// sequence it returns is ASCII, opens with the header for square pixels and
/// a transparent background (the defaults) and closes with `ESC \`; the text
/// of any error it reports is the named one.
#[verifier::external_body]
fn sixel_encode(rgba: Vec<u8>, width: usize, height: usize) -> (r: Result<Vec<u8>, icy_sixel::SixelError>)
    ensures
        match r {
            Ok(bytes) => sixel_output(rgba@, width, height) == Ok::<Seq<u8>, Seq<char>>(bytes@),
            Err(e) => sixel_output(rgba@, width, height) matches Err(text)
                && forall|s: String| #[trigger] to_string_from_display_ensures::<icy_sixel::SixelError>(&e, s) ==> s@ == text,
        },
        r matches Ok(bytes) ==> sixel_framed(bytes@, width, height),
        r matches Ok(bytes) ==> forall|i: int| 0 <= i < bytes@.len() ==> #[trigger] bytes@[i] < 0x80u8,
        width == 0 || height == 0 ==> r is Err,
{
    match icy_sixel::SixelImage::from_rgba(rgba, width, height).encode() {
        Ok(s) => Ok(s.into_bytes()),
        Err(e) => Err(e),
    }
}

/// Turns the encoder crate's outcome into this library's: its bytes, or an
/// `Encode` error carrying the crate error's `Display` text.
pub fn sixel_result(outcome: Result<Vec<u8>, icy_sixel::SixelError>) -> (r: Result<Vec<u8>, EncoderError>)
    ensures
        match outcome {
            Ok(bytes) => r == Ok::<Vec<u8>, EncoderError>(bytes),
            Err(e) => r matches Err(EncoderError::Encode(msg))
                && to_string_from_display_ensures::<icy_sixel::SixelError>(&e, msg),
        },
{
    match outcome {
        Ok(bytes) => Ok(bytes),
        Err(e) => Err(EncoderError::Encode(e.to_string())),
    }
}

/// What [`encode`] returns for `frame`: `InvalidDimensions` exactly when a
/// dimension is zero; otherwise the crate's Sixel bytes for the frame's RGBA
/// pixels, or an `Encode` error with the crate's error text.
pub open spec fn encode_result(frame: FrameView) -> Result<Seq<u8>, ErrorView> {
    if frame.width == 0 || frame.height == 0 {
        Err(ErrorView::InvalidDimensions { width: frame.width, height: frame.height })
    } else {
        match sixel_output(rgba_bytes(frame.pixels), frame.width as usize, frame.height as usize) {
            Ok(bytes) => Ok(bytes),
            Err(text) => Err(ErrorView::Encode(text)),
        }
    }
}

/// Encodes `frame` as a Sixel DCS (Device Control String) escape sequence:
/// `ESC P ... q ... ESC \`. `icy_sixel` does the colour quantisation and the
/// Sixel serialisation; the RGBA pixels are handed over as they are.
pub fn encode(frame: &FrameBuffer) -> (r: Result<Vec<u8>, EncoderError>)
    ensures
        outcome_view(r) == encode_result(frame@),
        r matches Ok(bytes) ==> sixel_framed(bytes@, frame@.width as usize, frame@.height as usize),
        r matches Ok(bytes) ==> forall|i: int| 0 <= i < bytes@.len() ==> #[trigger] bytes@[i] < 0x80u8,
{
    if frame.width() == 0 || frame.height() == 0 {
        return Err(EncoderError::InvalidDimensions { width: frame.width(), height: frame.height() });
    }
    let rgba = flatten_rgba(frame.pixels());
    let outcome = sixel_encode(rgba, frame.width() as usize, frame.height() as usize);
    sixel_result(outcome)
}

/// For a frame with both dimensions nonzero, the encoder hands `icy_sixel`
/// the frame's own pixels, row-major, channels R, G, B, A (byte `4 * i + c`
/// is channel `c` of pixel `i`) together with the frame's width and height,
/// and answers with what the crate produces: its bytes, or its error text.
pub proof fn lemma_encoder_input_is_the_pixels_in_order(frame: FrameView, input: Seq<u8>)
    requires
        frame.width != 0,
        frame.height != 0,
        holds_pixels_in_order(input, frame.pixels),
    ensures
        encode_result(frame) == match sixel_output(input, frame.width as usize, frame.height as usize) {
            Ok(bytes) => Ok::<Seq<u8>, ErrorView>(bytes),
            Err(text) => Err::<Seq<u8>, ErrorView>(ErrorView::Encode(text)),
        },
{
    lemma_rgba_bytes_layout(frame.pixels);
}

} // verus!
