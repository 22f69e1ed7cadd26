use dashcompositor::encoder::kitty::write_failure;
use dashcompositor::encoder::{EncoderError, EncoderFeatures, ProtocolEncoder};
use dashcompositor::{FrameBuffer, Protocol};

#[test]
fn as_str_matches_variant() {
    assert_eq!(Protocol::Kitty.as_str(), "kitty");
    assert_eq!(Protocol::Sixel.as_str(), "sixel");
}

#[test]
fn encoder_error_display_includes_context() {
    let e = EncoderError::UnsupportedProtocol("sixel");
    assert_eq!(e.to_string(), "protocol sixel is not supported in this build");

    let e = EncoderError::InvalidDimensions { width: 0, height: 5 };
    assert_eq!(e.to_string(), "framebuffer has invalid dimensions: 0x5");
}

#[test]
fn sixel_encode_is_unsupported_without_feature() {
    // Without the Sixel encoder, the Sixel arm must return
    // UnsupportedProtocol instead of producing a (non-existent) encoder.
    let without_sixel = EncoderFeatures { kitty_encoder: true, sixel_encoder: false };
    let fb = FrameBuffer::new(2, 2);
    let err = Protocol::Sixel.encode_with(&fb, without_sixel).unwrap_err();
    assert_eq!(err, EncoderError::UnsupportedProtocol("sixel"));
}

#[test]
fn kitty_encode_is_unsupported_without_feature() {
    // Without the Kitty encoder, the Kitty arm must return
    // UnsupportedProtocol instead of producing a (non-existent) encoder.
    let without_kitty = EncoderFeatures { kitty_encoder: false, sixel_encoder: true };
    let fb = FrameBuffer::new(2, 2);
    let err = Protocol::Kitty.encode_with(&fb, without_kitty).unwrap_err();
    assert_eq!(err, EncoderError::UnsupportedProtocol("kitty"));
}

#[test]
fn kitty_encode_rejects_zero_dimensions() {
    let fb_zero_w = FrameBuffer::new(0, 5);
    let fb_zero_h = FrameBuffer::new(5, 0);
    let fb_zero_both = FrameBuffer::new(0, 0);
    for fb in [&fb_zero_w, &fb_zero_h, &fb_zero_both] {
        let err = Protocol::Kitty.encode(fb).unwrap_err();
        assert!(matches!(err, EncoderError::InvalidDimensions { .. }));
    }
}

#[test]
fn kitty_encode_produces_valid_escape_framing() {
    // 2x2 fully-opaque red framebuffer.
    let mut fb = FrameBuffer::new(2, 2);
    for px in fb.pixels_mut() {
        *px = [255, 0, 0, 255];
    }
    let bytes = Protocol::Kitty.encode(&fb).unwrap();
    assert!(!bytes.is_empty(), "encoded output must not be empty");
    assert!(
        bytes.starts_with(b"\x1b_G"),
        "encoded output must start with the Kitty APC start (\\x1b_G), got: {:?}",
        &bytes[..bytes.len().min(8)],
    );
    assert!(
        bytes.ends_with(b"\x1b\\"),
        "encoded output must end with the Kitty APC terminator (\\x1b\\\\), got tail: {:?}",
        &bytes[bytes.len().saturating_sub(8)..],
    );
    let s = std::str::from_utf8(&bytes).unwrap_or("");
    let payload_start = "\x1b_G".len();
    let payload_end = s.find(';').unwrap_or(s.len());
    let controls = &s[payload_start..payload_end];
    assert!(
        controls.contains("a=T"),
        "controls must include `a=T` (transmit and put), got: {controls:?}",
    );
    assert!(
        controls.contains("f=32"),
        "controls must include `f=32` (32-bit RGBA), got: {controls:?}",
    );
    assert!(
        controls.contains("q=2"),
        "controls must include `q=2` (suppress responses), got: {controls:?}",
    );
    assert!(
        controls.contains("s=2"),
        "controls must include `s=2` (width 2), got: {controls:?}",
    );
    assert!(
        controls.contains("v=2"),
        "controls must include `v=2` (height 2), got: {controls:?}",
    );
}

#[test]
fn kitty_encode_is_deterministic_for_same_input() {
    let mut fb = FrameBuffer::new(3, 3);
    for px in fb.pixels_mut() {
        *px = [10, 20, 30, 255];
    }
    let a = Protocol::Kitty.encode(&fb).unwrap();
    let b = Protocol::Kitty.encode(&fb).unwrap();
    assert_eq!(a, b);
}

#[test]
fn sixel_encode_rejects_zero_dimensions() {
    let fb_zero_w = FrameBuffer::new(0, 5);
    let fb_zero_h = FrameBuffer::new(5, 0);
    let fb_zero_both = FrameBuffer::new(0, 0);
    for fb in [&fb_zero_w, &fb_zero_h, &fb_zero_both] {
        let err = Protocol::Sixel.encode(fb).unwrap_err();
        assert!(matches!(err, EncoderError::InvalidDimensions { .. }));
    }
}

#[test]
fn sixel_encode_produces_valid_dcs_framing() {
    // 2x2 fully-opaque red framebuffer.
    let mut fb = FrameBuffer::new(2, 2);
    for px in fb.pixels_mut() {
        *px = [255, 0, 0, 255];
    }
    let bytes = Protocol::Sixel.encode(&fb).unwrap();
    assert!(!bytes.is_empty(), "encoded output must not be empty");
    assert!(
        bytes.starts_with(b"\x1bP"),
        "encoded output must start with the Sixel DCS introducer (\\x1bP), got: {:?}",
        &bytes[..bytes.len().min(8)],
    );
    assert!(
        bytes.ends_with(b"\x1b\\"),
        "encoded output must end with the DCS ST terminator (\\x1b\\\\), got tail: {:?}",
        &bytes[bytes.len().saturating_sub(8)..],
    );
    let header_end = bytes.iter().position(|&b| b == b'#').unwrap_or(bytes.len());
    let header = &bytes[..header_end];
    assert!(
        header.contains(&b'q'),
        "Sixel header must contain the `q` mode letter before the first `#`, got: {:?}",
        std::str::from_utf8(header).unwrap_or("<non-utf8>"),
    );
    assert!(
        bytes.len() > 16,
        "encoded output must contain real pixel data (got {} bytes)",
        bytes.len(),
    );
    let s = std::str::from_utf8(&bytes).unwrap_or("");
    assert!(
        s.contains('2'),
        "encoded output should reference the 2x2 dimensions, got: {s:?}",
    );
}

#[test]
fn sixel_encode_is_deterministic_for_same_input() {
    let mut fb = FrameBuffer::new(3, 3);
    for px in fb.pixels_mut() {
        *px = [10, 20, 30, 255];
    }
    let a = Protocol::Sixel.encode(&fb).unwrap();
    let b = Protocol::Sixel.encode(&fb).unwrap();
    assert_eq!(a, b);
}

#[test]
fn kitty_encode_of_one_red_pixel_is_exact() {
    // One opaque red pixel: RGBA FF 00 00 FF, Base64 "/wAA/w==".
    let mut fb = FrameBuffer::new(1, 1);
    for px in fb.pixels_mut() {
        *px = [255, 0, 0, 255];
    }
    let bytes = Protocol::Kitty.encode(&fb).unwrap();
    assert_eq!(bytes, b"\x1b_Ga=T,f=32,q=2,s=1,v=1;/wAA/w==\x1b\\".to_vec());
}

#[test]
fn kitty_encode_writes_multi_digit_dimensions() {
    let fb = FrameBuffer::new(12, 305);
    let bytes = Protocol::Kitty.encode(&fb).unwrap();
    let s = std::str::from_utf8(&bytes).unwrap();
    assert!(s.starts_with("\x1b_Ga=T,f=32,q=2,s=12,v=305;"));
    assert!(s.ends_with("\x1b\\"));
}

#[test]
fn kitty_encode_zero_dimension_error_carries_dimensions() {
    let fb = FrameBuffer::new(0, 7);
    let err = Protocol::Kitty.encode(&fb).unwrap_err();
    assert_eq!(err, EncoderError::InvalidDimensions { width: 0, height: 7 });
    let fb = FrameBuffer::new(9, 0);
    let err = Protocol::Sixel.encode(&fb).unwrap_err();
    assert_eq!(err, EncoderError::InvalidDimensions { width: 9, height: 0 });
}

#[test]
fn sixel_encode_differs_for_different_colours() {
    let mut red = FrameBuffer::new(2, 2);
    for px in red.pixels_mut() {
        *px = [255, 0, 0, 255];
    }
    let mut blue = FrameBuffer::new(2, 2);
    for px in blue.pixels_mut() {
        *px = [0, 0, 255, 255];
    }
    let a = Protocol::Sixel.encode(&red).unwrap();
    let b = Protocol::Sixel.encode(&blue).unwrap();
    assert_ne!(a, b);
}

#[test]
fn encode_with_all_features_matches_encode() {
    let mut fb = FrameBuffer::new(2, 1);
    for px in fb.pixels_mut() {
        *px = [1, 2, 3, 4];
    }
    let all = EncoderFeatures::enabled();
    assert!(all.kitty_encoder && all.sixel_encoder);
    assert_eq!(Protocol::Kitty.encode_with(&fb, all), Protocol::Kitty.encode(&fb));
    assert_eq!(Protocol::Sixel.encode_with(&fb, all), Protocol::Sixel.encode(&fb));
}

#[test]
fn unsupported_protocol_comes_before_dimension_check() {
    let none = EncoderFeatures { kitty_encoder: false, sixel_encoder: false };
    let fb = FrameBuffer::new(0, 0);
    assert_eq!(
        Protocol::Kitty.encode_with(&fb, none),
        Err(EncoderError::UnsupportedProtocol("kitty"))
    );
    assert_eq!(
        Protocol::Sixel.encode_with(&fb, none),
        Err(EncoderError::UnsupportedProtocol("sixel"))
    );
}

#[test]
fn encode_error_message_wraps_crate_text() {
    let e = EncoderError::Encode("boom".to_string());
    assert_eq!(e.to_string(), "encoder failed: boom");
    let e = EncoderError::UnsupportedProtocol("kitty");
    assert_eq!(e.to_string(), "protocol kitty is not supported in this build");
    let e = EncoderError::InvalidDimensions { width: 1920, height: 0 };
    assert_eq!(e.to_string(), "framebuffer has invalid dimensions: 1920x0");
}

#[test]
fn write_failure_carries_the_io_message() {
    let err = write_failure(std::io::Error::other("disk gone"));
    assert_eq!(err, EncoderError::Encode("disk gone".to_string()));
    assert_eq!(err.to_string(), "encoder failed: disk gone");
}

#[test]
fn kitty_encode_of_one_transparent_pixel_is_exact() {
    let fb = FrameBuffer::new(1, 1);
    let bytes = Protocol::Kitty.encode(&fb).unwrap();
    assert_eq!(bytes, b"\x1b_Ga=T,f=32,q=2,s=1,v=1;AAAAAA==\x1b\\".to_vec());
}

#[test]
fn kitty_encode_base64_covers_every_group_length() {
    // Three pixels: 12 bytes, exactly four Base64 groups, no padding.
    let mut fb = FrameBuffer::new(3, 1);
    for px in fb.pixels_mut() {
        *px = [0xfb, 0xff, 0xbf, 0x3e];
    }
    let bytes = Protocol::Kitty.encode(&fb).unwrap();
    assert_eq!(bytes, b"\x1b_Ga=T,f=32,q=2,s=3,v=1;+/+/Pvv/vz77/78+\x1b\\".to_vec());
}

#[test]
fn sixel_encode_opens_with_the_header() {
    let mut fb = FrameBuffer::new(3, 2);
    for px in fb.pixels_mut() {
        *px = [0, 128, 255, 255];
    }
    let bytes = Protocol::Sixel.encode(&fb).unwrap();
    assert!(bytes.starts_with(b"\x1bP9;1;0q\"1;1;3;2"));
    assert!(bytes.ends_with(b"\x1b\\"));
}

#[test]
fn sixel_encode_is_ascii() {
    let mut fb = FrameBuffer::new(4, 7);
    for (i, px) in fb.pixels_mut().iter_mut().enumerate() {
        *px = [(i * 9) as u8, (i * 31) as u8, 200, 255];
    }
    let bytes = Protocol::Sixel.encode(&fb).unwrap();
    assert!(bytes.iter().all(|b| *b < 0x80));
}
