# tvbox-wc

The Wayland compositor for the tvbox, a Raspberry Pi 5 TV box.

Not a general-purpose compositor, on purpose. It exists to make the decisions a general
one refuses to make: the film takes the display's primary plane, the shell's translucent
fullscreen UI takes an overlay plane above it, the output's colour space follows the
content, and the compositor itself does no per-frame GPU work while a film is playing.

The decisions are a library in Verus, proved against contracts; the hardware, Wayland and
the control socket are wired to them in ordinary Rust.

| | |
| --- | --- |
| `src/stacking.rs`, `src/state.rs` | which window is in front, where windows go, who holds the keyboard |
| `src/render.rs`, `src/cursor.rs` | the scene, front to back |
| `src/backend/` | when a frame is drawn, and at which mode |
| `src/kms/` | framebuffers from client buffers, and the output's colour space |
| `src/ipc/`, `src/json.rs` | the control socket: framing, requests, replies |
| `src/typing.rs` | typing a string no ordinary keymap can produce |
| `src/recovery.rs`, `src/input.rs` | what is read from the remote before any client sees it |
| `src/session.rs`, `src/screenshot.rs`, `src/health.rs`, `src/cli.rs` | the session, screenshots, counters, the command line |
| `src/fuzz.rs` | the control socket's decoding, end to end |
| `app/` | the program: Smithay, DRM, libinput, files, sockets and processes |
| `tests/` | the library on concrete values |

What the library has from other crates it calls behind small functions whose contracts
are believed rather than proved: JSON is read and written by serde_json, and PNG files are
encoded by png.
