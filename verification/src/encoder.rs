//! Output protocol selection and framebuffer encoding.

pub mod kitty;
pub mod sixel;

use vstd::prelude::*;
use crate::framebuffer::{FrameBuffer, FrameView};
use crate::text::{decimal_text, push_decimal_text};

verus! {

/// Terminal graphics protocol used to encode the composited framebuffer.
#[derive(Debug, Clone, Copy, PartialEq, Eq, Structural)]
pub enum Protocol {
    /// The kitty graphics protocol -- modern and feature-rich.
    Kitty,
    /// Sixel -- fallback for terminals without kitty support.
    Sixel,
}

/// The name under which a protocol appears in docs and capability probes.
pub open spec fn protocol_name(p: Protocol) -> Seq<char> {
    match p {
        Protocol::Kitty => "kitty"@,
        Protocol::Sixel => "sixel"@,
    }
}

impl Protocol {
    /// Returns the protocol name as it appears in docs and capability probes.
    pub fn as_str(self) -> (name: &'static str)
        ensures
            name@ == protocol_name(self),
    {
        match self {
            Protocol::Kitty => "kitty",
            Protocol::Sixel => "sixel",
        }
    }
}

/// Errors produced by [`ProtocolEncoder::encode`].
#[derive(Debug, Clone, PartialEq, Eq)]
pub enum EncoderError {
    /// The requested protocol is not compiled into this build.
    UnsupportedProtocol(&'static str),
    /// The framebuffer has zero width or height and cannot be encoded.
    InvalidDimensions {
        /// Framebuffer width in pixels.
        width: u32,
        /// Framebuffer height in pixels.
        height: u32,
    },
    /// The underlying encoder crate failed; the `String` carries its
    /// `Display` output.
    Encode(String),
}

/// What an [`EncoderError`] holds, with its texts as character sequences.
pub enum ErrorView {
    UnsupportedProtocol(Seq<char>),
    InvalidDimensions { width: u32, height: u32 },
    Encode(Seq<char>),
}

impl View for EncoderError {
    type V = ErrorView;

    open spec fn view(&self) -> ErrorView {
        match self {
            EncoderError::UnsupportedProtocol(p) => ErrorView::UnsupportedProtocol(p@),
            EncoderError::InvalidDimensions { width, height } => ErrorView::InvalidDimensions {
                width: *width,
                height: *height,
            },
            EncoderError::Encode(msg) => ErrorView::Encode(msg@),
        }
    }
}

/// An encoding result seen through its views: the bytes, or the error.
pub open spec fn outcome_view(r: Result<Vec<u8>, EncoderError>) -> Result<Seq<u8>, ErrorView> {
    match r {
        Ok(bytes) => Ok(bytes@),
        Err(e) => Err(e@),
    }
}

/// The human-readable text of an error.
pub open spec fn error_message(e: EncoderError) -> Seq<char> {
    match e {
        EncoderError::UnsupportedProtocol(p) => "protocol "@ + p@ + " is not supported in this build"@,
        EncoderError::InvalidDimensions { width, height } => "framebuffer has invalid dimensions: "@
            + decimal_text(width as nat) + "x"@ + decimal_text(height as nat),
        EncoderError::Encode(msg) => "encoder failed: "@ + msg@,
    }
}

/// An unsupported-protocol message names the protocol right after
/// `protocol `; an invalid-dimensions message ends with `<width>x<height>`.
pub proof fn lemma_error_message_carries_context(e: EncoderError)
    ensures
        e matches EncoderError::UnsupportedProtocol(p) ==> (seq!['p', 'r', 'o', 't', 'o', 'c', 'o', 'l', ' '] + p@).is_prefix_of(
            error_message(e),
        ),
        e matches EncoderError::InvalidDimensions { width, height } ==> (decimal_text(width as nat) + seq!['x']
            + decimal_text(height as nat)).is_suffix_of(error_message(e)),
        e matches EncoderError::Encode(msg) ==> msg@.is_suffix_of(error_message(e)),
{
    reveal_strlit("protocol ");
    reveal_strlit("x");
    let m = error_message(e);
    match e {
        EncoderError::UnsupportedProtocol(p) => {
            assert(m.subrange(0, 9 + p@.len() as int) =~= seq!['p', 'r', 'o', 't', 'o', 'c', 'o', 'l', ' '] + p@);
        },
        EncoderError::InvalidDimensions { width, height } => {
            let t = decimal_text(width as nat) + seq!['x'] + decimal_text(height as nat);
            assert(m.subrange(m.len() - t.len(), m.len() as int) =~= t);
        },
        EncoderError::Encode(msg) => {
            assert(m.subrange(m.len() - msg@.len(), m.len() as int) =~= msg@);
        },
    }
}

impl EncoderError {
    /// The error's message, e.g. `framebuffer has invalid dimensions: 0x5`.
    pub fn to_string(&self) -> (s: String)
        ensures
            s@ == error_message(*self),
    {
        match self {
            EncoderError::UnsupportedProtocol(p) => {
                let mut s = String::from_str("protocol ");
                s.append(p);
                s.append(" is not supported in this build");
                s
            },
            EncoderError::InvalidDimensions { width, height } => {
                let mut s = String::from_str("framebuffer has invalid dimensions: ");
                push_decimal_text(&mut s, *width);
                s.append("x");
                push_decimal_text(&mut s, *height);
                s
            },
            EncoderError::Encode(msg) => {
                let mut s = String::from_str("encoder failed: ");
                s.append(msg.as_str());
                s
            },
        }
    }
}

/// Which protocol encoders a build carries. The two encoders are optional
/// parts of the compositor; a protocol whose encoder is absent is answered
/// with [`EncoderError::UnsupportedProtocol`].
#[derive(Debug, Clone, Copy, PartialEq, Eq, Structural)]
pub struct EncoderFeatures {
    /// The Kitty graphics protocol encoder is present.
    pub kitty_encoder: bool,
    /// The Sixel encoder is present.
    pub sixel_encoder: bool,
}

impl EncoderFeatures {
    /// The encoders of this library: both.
    pub fn enabled() -> (f: EncoderFeatures)
        ensures
            f.kitty_encoder,
            f.sixel_encoder,
    {
        EncoderFeatures { kitty_encoder: true, sixel_encoder: true }
    }

    /// Whether the encoder for `protocol` is present.
    pub open spec fn supports(self, protocol: Protocol) -> bool {
        match protocol {
            Protocol::Kitty => self.kitty_encoder,
            Protocol::Sixel => self.sixel_encoder,
        }
    }
}

/// What encoding `frame` for `protocol` with the encoders `features` returns:
/// `UnsupportedProtocol` naming the protocol when its encoder is absent,
/// otherwise what that protocol's encoder returns.
pub open spec fn encode_result(protocol: Protocol, features: EncoderFeatures, frame: FrameView) -> Result<
    Seq<u8>,
    ErrorView,
> {
    if !features.supports(protocol) {
        Err(ErrorView::UnsupportedProtocol(protocol_name(protocol)))
    } else {
        match protocol {
            Protocol::Kitty => kitty::encode_result(frame),
            Protocol::Sixel => sixel::encode_result(frame),
        }
    }
}

/// A successful Sixel encoding is ASCII, opens with the Sixel header for the
/// frame's dimensions and closes with `ESC \`.
pub open spec fn sixel_framing(protocol: Protocol, frame: FrameView, r: Result<Vec<u8>, EncoderError>) -> bool {
    protocol == Protocol::Sixel ==> (r matches Ok(bytes) ==> {
        &&& sixel::sixel_framed(bytes@, frame.width as usize, frame.height as usize)
        &&& forall|i: int| 0 <= i < bytes@.len() ==> #[trigger] bytes@[i] < 0x80u8
    })
}

/// Encodes a [`FrameBuffer`] into the byte stream a terminal expects for a
/// chosen [`Protocol`].
///
/// Implementors return a `Vec<u8>` of escape sequences the caller writes to
/// stdout; the encoding does no I/O itself.
pub trait ProtocolEncoder {
    /// Encodes `frame` into escape-sequence bytes for `self`.
    fn encode(&self, frame: &FrameBuffer) -> Result<Vec<u8>, EncoderError>
    ;
}

impl Protocol {
    /// Encodes `frame` with the encoders `features`.
    pub fn encode_with(&self, frame: &FrameBuffer, features: EncoderFeatures) -> (r: Result<Vec<u8>, EncoderError>)
        ensures
            outcome_view(r) == encode_result(*self, features, frame@),
            sixel_framing(*self, frame@, r),
    {
        match self {
            Protocol::Kitty => {
                if features.kitty_encoder {
                    kitty::encode(frame)
                } else {
                    Err(EncoderError::UnsupportedProtocol(self.as_str()))
                }
            },
            Protocol::Sixel => {
                if features.sixel_encoder {
                    sixel::encode(frame)
                } else {
                    Err(EncoderError::UnsupportedProtocol(self.as_str()))
                }
            },
        }
    }
}

impl ProtocolEncoder for Protocol {
    /// Encodes `frame` with this library's encoders.
    fn encode(&self, frame: &FrameBuffer) -> (r: Result<Vec<u8>, EncoderError>)
        ensures
            outcome_view(r) == encode_result(*self, EncoderFeatures { kitty_encoder: true, sixel_encoder: true }, frame@),
            sixel_framing(*self, frame@, r),
    {
        self.encode_with(frame, EncoderFeatures::enabled())
    }
}

/// Encoding is pure with respect to the frame: two encodings of the same
/// frame with the same protocol and encoders give the same bytes, or the same
/// error.
pub proof fn lemma_encoding_is_deterministic(
    protocol: Protocol,
    features: EncoderFeatures,
    frame: FrameView,
    r1: Result<Vec<u8>, EncoderError>,
    r2: Result<Vec<u8>, EncoderError>,
)
    requires
        outcome_view(r1) == encode_result(protocol, features, frame),
        outcome_view(r2) == encode_result(protocol, features, frame),
    ensures
        outcome_view(r1) == outcome_view(r2),
{
}

/// With its encoder present, a protocol answers exactly what that protocol's
/// encoder answers.
pub proof fn lemma_protocol_uses_its_encoder(protocol: Protocol, features: EncoderFeatures, frame: FrameView)
    requires
        features.supports(protocol),
    ensures
        encode_result(protocol, features, frame) == match protocol {
            Protocol::Kitty => kitty::encode_result(frame),
            Protocol::Sixel => sixel::encode_result(frame),
        },
{
}

/// A frame with zero width or zero height is refused with
/// `InvalidDimensions` carrying its dimensions, whichever present encoder is
/// asked; a frame with both dimensions nonzero is never refused that way, and
/// the Kitty encoder always succeeds on it.
pub proof fn lemma_zero_dimensions_are_refused(protocol: Protocol, features: EncoderFeatures, frame: FrameView)
    requires
        features.supports(protocol),
    ensures
        (frame.width == 0 || frame.height == 0) <==> encode_result(protocol, features, frame)
            == Err::<Seq<u8>, ErrorView>(ErrorView::InvalidDimensions { width: frame.width, height: frame.height }),
        protocol == Protocol::Kitty && frame.width != 0 && frame.height != 0
            ==> encode_result(protocol, features, frame) is Ok,
{
}

} // verus!
