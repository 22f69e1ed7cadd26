# dashcompositor

A layer-based graphics compositor for the terminal, written in Verus: the
library's logic carries contracts that the verifier proves.

- `src/framebuffer.rs` — the RGBA framebuffer, the RGBA byte layout of its
  pixels and per-channel sums.
- `src/layer.rs` — solid-colour layers, the per-entry control state
  (visibility, z-override, custom name) and the draw order of a stack.
- `src/encoder.rs` — protocol selection and errors; `src/encoder/kitty.rs`
  encodes through `little_kitty`, `src/encoder/sixel.rs` through `icy_sixel`.
- `src/text.rs` — decimal rendering of integers.
- `app/main.rs` — the demo program, with the floating-point parts (opacity,
  blending, the `Layer` trait and `LayerEntry`).
