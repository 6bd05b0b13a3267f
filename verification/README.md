# vshot

The logic of a Wayland screenshot and screen-recording tool, written in Verus:
reading the command line and the remembered settings, asking compositors for
windows and outputs, finding a window in a captured frame, and the protocol
state behind a capture.  The functions of the library carry contracts that
Verus proves; the few calls into other crates stand behind small functions whose
contracts say what is relied on.

- `src/cli*.rs`, `src/config.rs`, `src/record.rs`, `src/pin.rs`: what a command
  line asks for, what it falls back to, and the help in two languages.
- `src/capture/window*.rs`, `active_output.rs`, `niri*.rs`, `hypr_cursor.rs`:
  what compositors are asked, and what their answers say.
- `src/capture/pixel_*.rs`, `window_pixel.rs`, `window_blend.rs`: windows read
  off the pixels of a frame.
- `src/capture/screencopy.rs`, `wlr.rs`, `window_session.rs`, `window_copy.rs`,
  `kwin.rs`, `dmabuf.rs`, `raw_pixels.rs`: captures, event by event, and the
  pixels they bring.
- `src/geometry.rs`, `model.rs`, `json.rs`, `sections.rs`, `text.rs`, `doubles.rs`,
  `binary64.rs`, `sorting.rs`, `path.rs`, `error.rs`: what the rest stands on.
  Floating-point numbers are held by their bit patterns.

`app/` is the ordinary Rust around the library: sockets, D-Bus, processes, files
and the argument parser.  `tests/` runs the library on concrete values.

The public proof functions named `law_…` state what holds of several functions
together.
