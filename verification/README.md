# pealayer

A desktop video player with a 4D-cinema editor: effects (water, wind, seat vibration,
smoke, auxiliary relays) are laid out on a timeline next to the video and played on
relay and PWM hardware over a serial link.

The decision-making part of the player is a Verus library whose functions carry
`requires`/`ensures` contracts proved by Verus.

## Layout

- `src/` – the verified library.
  - `four_d/` – effect models and hardware targets, relay patterns, keyframe placement,
    the undo history, the timeline compiler and the playback engine's state machine,
    and the serial frame protocol (CRC-8 and COBS framing, typed commands).
  - `app.rs` – timeline edits behind the player (placing dropped effects, isolating
    shared templates, stretching effects, relocating them, recording relay cues live,
    recent media, the player's track lists).
  - `ui/` – the timeline editor: drop handling with undo, clip dragging and snapping,
    selection and bulk edits, monitor and timecode texts.
  - `server/` – the web remote's routing, URL decoding, directory listing order and
    thumbnail naming.
  - `platform/` – desktop-integration texts (desktop entry, registry keys).
  - `paths.rs` – path equality by components and `set_extension`, read as on Unix
    (recent-media deduplication, timeline sidecar names).
  - `text.rs` – small string helpers.
- `app/` – the program around the library: the egui/eframe window, mpv playback, the
  serial port and engine thread, the HTTP server, configuration files and the parts
  that compute with floating point (analog curves, gesture capture, layout geometry).
- `tests/` – tests of the library.

Laws that span several functions (protocol round trips, undo/redo, the compiled queue
and the engine's playback window, listing order, selection rules) are public proof
functions next to the code they are about.
