# xwlrvnc

A fake X server backed by a Wayland display, with enough of the protocol for X11 VNC
servers to share the screen, inject input and synchronize the clipboard.

## Layout

- `src/` is the library, written in Verus. Its functions have contracts over a
  mathematical model of the state, and the `law_` proof functions state what holds across
  functions.
  - `src/util/`: output transforms, layouts, rectangles and regions, and the sequence lemmas.
  - `src/config.rs`: the command line.
  - `src/bridge/`: the framebuffer, the clipboard and its queue, cursor, damage, input,
    keymap, resolution changes, profile, and the events that clients are sent.
  - `src/bridge/x11/`: requests, replies, and what each request does.
  - `src/bridge/wayland/`: seats, outputs, capture, data control and output
    configuration, as state machines.
  - `src/hook/`: finding and patching the dynamic-resolution check of a VNC agent.
- `app/` is the program around it: sockets, the Wayland connection, shared memory, pipes,
  threads, and the keyboard that follows the injected keys.
- `tests/` runs the library; replies and events are read back with `x11rb-protocol`.

## What is trusted

The calls into `xkbcommon-rs` (`src/bridge/keymap.rs`), into `x11rb-protocol`
(`src/bridge/x11/request.rs`, `src/bridge/x11/ext.rs`) and three conversions of the
standard library (`src/bridge/x11/targets.rs`, `src/bridge/wayland/input.rs`,
`src/bridge/wayland/output_config.rs`) stand behind contracts that are not proved.

## Limits

- Requests are little-endian.
- A keymap with 32 modifiers is not tabulated.
