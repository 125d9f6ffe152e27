# win_canvas

The verified core of a desktop overlay that lays open windows out on a canvas
of screens.

- `src/text.rs` — UTF-16 encoding of strings for the window system, and the
  desktop-shell window classes that are never laid out.
- `src/tiling.rs` — how windows are shared out over a 3×3 grid of screens and
  tiled inside each screen, with the proofs that tiles stay inside their screen
  and never overlap.
- `src/workspace.rs` — the workspace: which windows it takes over, their tiles,
  what it gives back, which windows a viewport position moves, and the clock of
  the viewport's glide.
- `src/overlay.rs` — the overlay's show/close/fade-in state machine, and the
  decisions about thumbnails, clicks and the heads-up display.
- `app/` — the Win32 program around the library: window creation, the message
  loop, and the floating-point easing and viewport glide.

Everything under `src/` is checked by Verus; `tests/` runs the library on
concrete values.
