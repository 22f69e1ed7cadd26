//! The Kitty graphics protocol encoder, built on the `little_kitty` crate.

use vstd::prelude::*;
use vstd::string::to_string_from_display_ensures;
use vstd::utf8::encode_utf8;
use little_kitty::io::KittyCommandWriter;
use crate::encoder::{outcome_view, EncoderError, ErrorView};
use crate::framebuffer::{flatten_rgba, holds_pixels_in_order, lemma_rgba_bytes_layout, rgba_bytes, FrameBuffer, FrameView};
use crate::text::{decimal, lemma_decimal_is_digits};

verus! {

#[verifier::external_type_specification]
#[verifier::external_body]
pub struct ExIoError(std::io::Error);

/// The value of one key of a Kitty graphics command.
#[derive(Debug, Clone, Copy, PartialEq, Eq, Structural)]
pub enum ControlValue {
    /// A single character, such as the action `T`.
    Char(char),
    /// An unsigned integer, such as a width in pixels.
    UnsignedInteger(u32),
}

/// The bytes that `little_kitty` writes for a control value: the UTF-8
/// encoding of a character, or the decimal digits of an integer.
pub open spec fn value_bytes(v: ControlValue) -> Seq<u8> {
    match v {
        ControlValue::Char(c) => encode_utf8(seq![c]),
        ControlValue::UnsignedInteger(n) => decimal(n as nat),
    }
}

/// `ESC _ G`: start of a Kitty graphics command.
pub open spec fn command_start() -> Seq<u8> {
    seq![0x1bu8, 0x5fu8, 0x47u8]
}

/// `ESC P t m u x ; ESC ESC _ G`: tmux passthrough start followed by an
/// escaped command start.
pub open spec fn command_start_tmux() -> Seq<u8> {
    seq![0x1bu8, 0x50u8, 0x74u8, 0x6du8, 0x75u8, 0x78u8, 0x3bu8, 0x1bu8, 0x1bu8, 0x5fu8, 0x47u8]
}

/// `ESC P t m u x ; ESC ESC [`: tmux passthrough start followed by an
/// escaped cursor-position start.
pub open spec fn position_start_tmux() -> Seq<u8> {
    seq![0x1bu8, 0x50u8, 0x74u8, 0x6du8, 0x75u8, 0x78u8, 0x3bu8, 0x1bu8, 0x1bu8, 0x5bu8]
}

/// `H ESC ESC _ G`: cursor-position end followed by an escaped command start.
pub open spec fn position_end_command_start_tmux() -> Seq<u8> {
    seq![0x48u8, 0x1bu8, 0x1bu8, 0x5fu8, 0x47u8]
}

/// `ESC \`: end of a Kitty graphics command.
pub open spec fn command_end() -> Seq<u8> {
    seq![0x1bu8, 0x5cu8]
}

/// `ESC ESC \ ESC \`: escaped command end followed by the tmux passthrough end.
pub open spec fn command_end_tmux() -> Seq<u8> {
    seq![0x1bu8, 0x1bu8, 0x5cu8, 0x1bu8, 0x5cu8]
}

/// What `write_start` writes.
pub open spec fn start_bytes(in_tmux: bool, position: Option<(usize, usize)>) -> Seq<u8> {
    if in_tmux {
        match position {
            Some((x, y)) => position_start_tmux() + decimal((y + 1) as nat) + seq![0x3bu8]
                + decimal((x + 1) as nat) + position_end_command_start_tmux(),
            None => command_start_tmux(),
        }
    } else {
        command_start()
    }
}

/// What `write_end` writes.
pub open spec fn end_bytes(in_tmux: bool) -> Seq<u8> {
    if in_tmux {
        command_end_tmux()
    } else {
        command_end()
    }
}

/// The character of the standard Base64 alphabet for the 6-bit value `v`:
/// `A`-`Z`, `a`-`z`, `0`-`9`, `+`, `/`.
pub open spec fn base64_char(v: int) -> u8 {
    if v < 26 {
        (0x41 + v) as u8
    } else if v < 52 {
        (0x61 + (v - 26)) as u8
    } else if v < 62 {
        (0x30 + (v - 52)) as u8
    } else if v == 62 {
        0x2bu8
    } else {
        0x2fu8
    }
}

/// Standard Base64 with `=` padding: each group of three bytes becomes four
/// characters; a final group of one or two bytes is padded to four.
pub open spec fn base64(data: Seq<u8>) -> Seq<u8>
    decreases data.len(),
{
    if data.len() == 0 {
        Seq::empty()
    } else if data.len() == 1 {
        let b0 = data[0] as int;
        seq![base64_char(b0 / 4), base64_char((b0 % 4) * 16), 0x3du8, 0x3du8]
    } else if data.len() == 2 {
        let b0 = data[0] as int;
        let b1 = data[1] as int;
        seq![base64_char(b0 / 4), base64_char((b0 % 4) * 16 + b1 / 16), base64_char((b1 % 16) * 4), 0x3du8]
    } else {
        let b0 = data[0] as int;
        let b1 = data[1] as int;
        let b2 = data[2] as int;
        seq![
            base64_char(b0 / 4),
            base64_char((b0 % 4) * 16 + b1 / 16),
            base64_char((b1 % 16) * 4 + b2 / 64),
            base64_char(b2 % 64),
        ] + base64(data.skip(3))
    }
}

/// The 6-bit value of a character of the standard Base64 alphabet.
pub open spec fn base64_value(ch: u8) -> int {
    if 0x41 <= ch <= 0x5a {
        ch - 0x41
    } else if 0x61 <= ch <= 0x7a {
        ch - 0x61 + 26
    } else if 0x30 <= ch <= 0x39 {
        ch - 0x30 + 52
    } else if ch == 0x2b {
        62
    } else {
        63
    }
}

/// Reads Base64 text back into bytes, four characters at a time; `=`
/// marks the padding of a final group of one or two bytes.
pub open spec fn base64_decode(text: Seq<u8>) -> Seq<u8>
    decreases text.len(),
{
    if text.len() < 4 {
        Seq::empty()
    } else {
        let v0 = base64_value(text[0]);
        let v1 = base64_value(text[1]);
        let v2 = base64_value(text[2]);
        let v3 = base64_value(text[3]);
        if text[2] == 0x3du8 {
            seq![(v0 * 4 + v1 / 16) as u8]
        } else if text[3] == 0x3du8 {
            seq![(v0 * 4 + v1 / 16) as u8, ((v1 % 16) * 16 + v2 / 4) as u8]
        } else {
            seq![(v0 * 4 + v1 / 16) as u8, ((v1 % 16) * 16 + v2 / 4) as u8, ((v2 % 4) * 64 + v3) as u8]
                + base64_decode(text.skip(4))
        }
    }
}

proof fn lemma_base64_char_value(v: int)
    requires
        0 <= v < 64,
    ensures
        base64_value(base64_char(v)) == v,
        base64_char(v) != 0x3du8,
{
}

/// Base64 loses nothing: decoding the encoding of any bytes gives them
/// back, and the encoding is four characters for every three bytes or part
/// of three.
pub proof fn lemma_base64_round_trip(data: Seq<u8>)
    ensures
        base64_decode(base64(data)) == data,
        base64(data).len() == 4 * ((data.len() + 2) / 3),
    decreases data.len(),
{
    let e = base64(data);
    if data.len() == 0 {
        assert(base64_decode(e) =~= data);
    } else {
        let b0 = data[0] as int;
        lemma_base64_char_value(b0 / 4);
        if data.len() == 1 {
            lemma_base64_char_value((b0 % 4) * 16);
            assert(base64_decode(e) =~= data);
        } else {
            let b1 = data[1] as int;
            lemma_base64_char_value((b0 % 4) * 16 + b1 / 16);
            if data.len() == 2 {
                lemma_base64_char_value((b1 % 16) * 4);
                assert(base64_decode(e) =~= data);
            } else {
                let b2 = data[2] as int;
                lemma_base64_char_value((b1 % 16) * 4 + b2 / 64);
                lemma_base64_char_value(b2 % 64);
                lemma_base64_round_trip(data.skip(3));
                assert(e.skip(4) =~= base64(data.skip(3)));
                assert(data =~= seq![data[0], data[1], data[2]] + data.skip(3));
                assert(base64_decode(e) =~= data);
            }
        }
    }
}

/// `KittyCommandWriter::write_start` on a byte vector: appends the command
/// start, tmux-escaped and preceded by a cursor move when asked. Appending
/// to a vector does not fail.
#[verifier::external_body]
fn write_start(out: &mut Vec<u8>, in_tmux: bool, position: Option<(usize, usize)>) -> (r: Result<(), std::io::Error>)
    requires
        in_tmux ==> (position matches Some((x, y)) ==> x < usize::MAX && y < usize::MAX),
    ensures
        r is Ok,
        final(out)@ == old(out)@ + start_bytes(in_tmux, position),
{
    out.write_start(in_tmux, position)
}

/// `KittyCommandWriter::write_end` on a byte vector: appends the command end
/// (tmux-escaped or not) and flushes, which does nothing on a vector.
/// Appending to a vector does not fail.
#[verifier::external_body]
fn write_end(out: &mut Vec<u8>, in_tmux: bool) -> (r: Result<(), std::io::Error>)
    ensures
        r is Ok,
        final(out)@ == old(out)@ + end_bytes(in_tmux),
{
    out.write_end(in_tmux)
}

/// `little_kitty::command::ControlValue::write` on a byte vector: writes a
/// character as UTF-8, an unsigned integer as decimal digits. Appending to a
/// vector does not fail.
#[verifier::external_body]
fn write_value(out: &mut Vec<u8>, value: ControlValue) -> (r: Result<(), std::io::Error>)
    ensures
        r is Ok,
        final(out)@ == old(out)@ + value_bytes(value),
{
    let v = match value {
        ControlValue::Char(c) => little_kitty::command::ControlValue::Char(c),
        ControlValue::UnsignedInteger(n) => little_kitty::command::ControlValue::UnsignedInteger(n),
    };
    v.write(&mut *out)
}

/// `KittyCommandWriter::write_base64`: consumes the writer, appends the
/// padded standard Base64 encoding of `data` and hands the writer back.
/// Appending to a vector does not fail.
#[verifier::external_body]
fn write_base64(out: Vec<u8>, data: &[u8]) -> (r: Result<Vec<u8>, std::io::Error>)
    ensures
        r is Ok,
        r->Ok_0@ == out@ + base64(data@),
{
    out.write_base64(data)
}

/// A failed write, as an encoder error carrying the I/O error's `Display`
/// text.
pub fn write_failure(e: std::io::Error) -> (r: EncoderError)
    ensures
        r matches EncoderError::Encode(msg) && to_string_from_display_ensures::<std::io::Error>(&e, msg),
{
    EncoderError::Encode(e.to_string())
}

/// One `key=value` control.
pub open spec fn control_bytes(c: (u8, ControlValue)) -> Seq<u8> {
    seq![c.0, 0x3du8] + value_bytes(c.1)
}

/// Controls written one after another, separated by commas.
pub open spec fn controls_bytes(cs: Seq<(u8, ControlValue)>) -> Seq<u8>
    decreases cs.len(),
{
    if cs.len() == 0 {
        Seq::empty()
    } else if cs.len() == 1 {
        control_bytes(cs[0])
    } else {
        controls_bytes(cs.drop_last()) + seq![0x2cu8] + control_bytes(cs.last())
    }
}

/// The controls of a "transmit and display" command for a `width x height`
/// image of raw 32-bit RGBA pixels, in the order they are written:
/// `a=T` (transmit and put), `f=32` (32-bit RGBA), `q=2` (suppress
/// responses), `s=width`, `v=height`.
pub open spec fn transmit_controls(width: u32, height: u32) -> Seq<(u8, ControlValue)> {
    seq![
        (0x61u8, ControlValue::Char('T')),
        (0x66u8, ControlValue::UnsignedInteger(32)),
        (0x71u8, ControlValue::UnsignedInteger(2)),
        (0x73u8, ControlValue::UnsignedInteger(width)),
        (0x76u8, ControlValue::UnsignedInteger(height)),
    ]
}

/// The full escape sequence for one "transmit and display" command that
/// carries `rgba`: command start, the controls, `;`, the Base64 payload,
/// command end.
pub open spec fn transmit_command(width: u32, height: u32, rgba: Seq<u8>) -> Seq<u8> {
    command_start() + controls_bytes(transmit_controls(width, height)) + seq![0x3bu8]
        + base64(rgba) + command_end()
}

/// The command that encodes a framebuffer.
pub open spec fn frame_command(frame: FrameView) -> Seq<u8> {
    transmit_command(frame.width, frame.height, rgba_bytes(frame.pixels))
}

/// What [`encode`] returns for `frame`: `InvalidDimensions` exactly when a
/// dimension is zero, otherwise the frame's command.
pub open spec fn encode_result(frame: FrameView) -> Result<Seq<u8>, ErrorView> {
    if frame.width == 0 || frame.height == 0 {
        Err(ErrorView::InvalidDimensions { width: frame.width, height: frame.height })
    } else {
        Ok(frame_command(frame))
    }
}

/// Encodes `frame` as a single Kitty "transmit and display" command using raw
/// RGBA pixel data (format code 32). The returned bytes are the full
/// escape-sequence payload, ready to be written to the terminal.
pub fn encode(frame: &FrameBuffer) -> (r: Result<Vec<u8>, EncoderError>)
    ensures
        outcome_view(r) == encode_result(frame@),
{
    if frame.width() == 0 || frame.height() == 0 {
        return Err(EncoderError::InvalidDimensions { width: frame.width(), height: frame.height() });
    }
    let rgba = flatten_rgba(frame.pixels());
    let controls: Vec<(u8, ControlValue)> = vec![
        (0x61u8, ControlValue::Char('T')),
        (0x66u8, ControlValue::UnsignedInteger(32)),
        (0x71u8, ControlValue::UnsignedInteger(2)),
        (0x73u8, ControlValue::UnsignedInteger(frame.width())),
        (0x76u8, ControlValue::UnsignedInteger(frame.height())),
    ];
    assert(controls@ =~= transmit_controls(frame@.width, frame@.height));
    let mut out: Vec<u8> = Vec::new();
    match write_start(&mut out, false, None) {
        Ok(()) => {},
        Err(e) => return Err(write_failure(e)),
    }
    let n = controls.len();
    let mut i: usize = 0;
    while i < n
        invariant
            i <= n,
            n == controls@.len(),
            frame@.width != 0 && frame@.height != 0,
            out@ == command_start() + controls_bytes(controls@.take(i as int)),
        decreases n - i,
    {
        let (key, value) = controls[i];
        let ghost before = out@;
        if i > 0 {
            out.push(0x2cu8);
        }
        out.push(key);
        out.push(0x3du8);
        match write_value(&mut out, value) {
            Ok(()) => {},
            Err(e) => return Err(write_failure(e)),
        }
        proof {
            let taken = controls@.take(i + 1);
            assert(taken.drop_last() =~= controls@.take(i as int));
            assert(taken.last() == (key, value));
            if i == 0 {
                assert(controls@.take(0) =~= Seq::<(u8, ControlValue)>::empty());
                assert(out@ =~= command_start() + control_bytes((key, value)));
            } else {
                assert(out@ =~= before + seq![0x2cu8] + control_bytes((key, value)));
            }
        }
        i = i + 1;
    }
    assert(controls@.take(n as int) =~= controls@);
    out.push(0x3bu8);
    let out = match write_base64(out, rgba.as_slice()) {
        Ok(v) => v,
        Err(e) => return Err(write_failure(e)),
    };
    let mut out = out;
    match write_end(&mut out, false) {
        Ok(()) => {},
        Err(e) => return Err(write_failure(e)),
    }
    assert(out@ =~= frame_command(frame@));
    Ok(out)
}

/// The controls of a transmit command as text:
/// `a=T,f=32,q=2,s=<width>,v=<height>`.
pub open spec fn transmit_controls_text(width: u32, height: u32) -> Seq<u8> {
    seq![0x61u8, 0x3du8, 0x54u8, 0x2cu8, 0x66u8, 0x3du8, 0x33u8, 0x32u8, 0x2cu8, 0x71u8, 0x3du8, 0x32u8, 0x2cu8, 0x73u8, 0x3du8]
        + decimal(width as nat) + seq![0x2cu8, 0x76u8, 0x3du8] + decimal(height as nat)
}

/// The controls of a transmit command are written as
/// `a=T,f=32,q=2,s=<width>,v=<height>`, and hold no `;`.
pub proof fn lemma_transmit_controls_text(width: u32, height: u32)
    ensures
        controls_bytes(transmit_controls(width, height)) == transmit_controls_text(width, height),
        forall|i: int|
            0 <= i < transmit_controls_text(width, height).len()
                ==> #[trigger] transmit_controls_text(width, height)[i] != 0x3bu8,
{
    let cs = transmit_controls(width, height);
    assert(encode_utf8(seq!['T']) =~= seq![0x54u8]) by {
        reveal_with_fuel(encode_utf8, 2);
        assert(seq!['T'].drop_first() =~= Seq::<char>::empty());
        assert(('T' as u32) == 0x54u32);
        assert((0x54u32 & 0x7Fu32) as u8 == 0x54u8) by (bit_vector);
    }
    assert(decimal(32) =~= seq![0x33u8, 0x32u8]) by {
        reveal_with_fuel(decimal, 2);
    }
    assert(decimal(2) =~= seq![0x32u8]);
    assert(cs.drop_last().drop_last().drop_last().drop_last() =~= seq![cs[0]]);
    assert(cs.drop_last().drop_last().drop_last() =~= seq![cs[0], cs[1]]);
    assert(cs.drop_last().drop_last() =~= seq![cs[0], cs[1], cs[2]]);
    assert(cs.drop_last() =~= seq![cs[0], cs[1], cs[2], cs[3]]);
    reveal_with_fuel(controls_bytes, 5);
    assert(controls_bytes(cs) =~= transmit_controls_text(width, height));
    lemma_decimal_is_digits(width as nat);
    lemma_decimal_is_digits(height as nat);
    let t = transmit_controls_text(width, height);
    let dw = decimal(width as nat);
    let dh = decimal(height as nat);
    assert forall|i: int| 0 <= i < t.len() implies #[trigger] t[i] != 0x3bu8 by {
        if 15 <= i < 15 + dw.len() {
            assert(t[i] == dw[i - 15]);
        } else if 15 + dw.len() + 3 <= i {
            assert(t[i] == dh[i - 15 - dw.len() - 3]);
        }
    }
}

/// A transmit command opens with `ESC _ G`, follows it with the controls
/// `a=T,f=32,q=2,s=<width>,v=<height>`, then the first `;` of the command,
/// and closes with `ESC \`.
pub proof fn lemma_transmit_command_framing(width: u32, height: u32, rgba: Seq<u8>)
    ensures
        ({
            let c = transmit_command(width, height, rgba);
            let t = transmit_controls_text(width, height);
            &&& c.take(3) == command_start()
            &&& c.subrange(3, 3 + t.len() as int) == t
            &&& c[3 + t.len() as int] == 0x3bu8
            &&& forall|i: int| 3 <= i < 3 + t.len() ==> #[trigger] c[i] != 0x3bu8
            &&& c.skip(c.len() - 2) == command_end()
        }),
{
    lemma_transmit_controls_text(width, height);
    let c = transmit_command(width, height, rgba);
    let t = transmit_controls_text(width, height);
    assert(c.take(3) =~= command_start());
    assert(c.subrange(3, 3 + t.len() as int) =~= t);
    assert(c.skip(c.len() - 2) =~= command_end());
    assert forall|i: int| 3 <= i < 3 + t.len() implies #[trigger] c[i] != 0x3bu8 by {
        assert(c[i] == t[i - 3]);
    }
}

/// A frame with both dimensions nonzero is encoded as exactly `ESC _ G`,
/// the controls `a=T,f=32,q=2,s=<width>,v=<height>`, `;`, the Base64 of the
/// frame's pixels in row-major order with channels R, G, B, A (byte
/// `4 * i + c` of the payload is channel `c` of pixel `i`), and `ESC \`.
pub proof fn lemma_payload_is_the_pixels_in_order(frame: FrameView, payload: Seq<u8>)
    requires
        frame.width != 0,
        frame.height != 0,
        holds_pixels_in_order(payload, frame.pixels),
    ensures
        encode_result(frame) == Ok::<Seq<u8>, ErrorView>(
            command_start() + transmit_controls_text(frame.width, frame.height) + seq![0x3bu8]
                + base64(payload) + command_end(),
        ),
{
    lemma_rgba_bytes_layout(frame.pixels);
    lemma_transmit_controls_text(frame.width, frame.height);
}

/// For a frame with both dimensions nonzero, the text between the `;` that
/// ends the controls and the closing `ESC \` Base64-decodes to the frame's
/// pixels in row-major order, channels R, G, B, A: byte `4 * i + c` is
/// channel `c` of pixel `i`.
pub proof fn lemma_payload_decodes_to_the_pixels(frame: FrameView)
    requires
        frame.width != 0,
        frame.height != 0,
    ensures
        encode_result(frame) matches Ok(bytes) && {
            let start: int = 3 + transmit_controls_text(frame.width, frame.height).len() as int + 1;
            &&& bytes.len() >= start + 2
            &&& bytes[start - 1] == 0x3bu8
            &&& holds_pixels_in_order(base64_decode(bytes.subrange(start, bytes.len() - 2)), frame.pixels)
        },
{
    let payload = rgba_bytes(frame.pixels);
    lemma_rgba_bytes_layout(frame.pixels);
    lemma_payload_is_the_pixels_in_order(frame, payload);
    lemma_base64_round_trip(payload);
    let t = transmit_controls_text(frame.width, frame.height);
    let bytes = command_start() + t + seq![0x3bu8] + base64(payload) + command_end();
    let start: int = 3 + t.len() as int + 1;
    assert(bytes.subrange(start, bytes.len() - 2) =~= base64(payload));
}

} // verus!
