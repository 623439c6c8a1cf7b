# Omarchy Connect

Remote desktop on the LAN: a host on a Wayland machine, and a client that shows its
monitors, sends input back, and exchanges files with it. There are no accounts and no
relay. The host has an unattended access PIN, and the client proves it.

The library under `src/` is written in Verus. It holds what both ends decide and
compute, with contracts that are proved:

- `message`, `handshake`: the wire format of a session and of the PIN exchange.
- `auth`, `door`, `lockout`: the PIN exchange, the order of its steps on both ends, and
  the throttling of wrong PINs.
- `file`, `transfers`, `file_name`, `hash`: file transfer, one file in each direction.
- `yuv`, `nal`, `synthetic`, `encode`, `decode`: pictures, the demo desktop, and the
  H.264 stream.
- `capture`, `screencopy`, `portal`, `layout`, `rounding`: capture of monitors and
  where they lie.
- `input`, `keys`, `window`: the pointer and the keyboard.
- `session`, `client`, `report`, `address`: the sessions of both ends.
- `settings`, `state`, `status`, `paths`: the settings and the status of the host.
- `text`, `bytes`: strings and integers.

`app/` is the program around it: sockets, files, devices, windows and the command line.

## What is trusted

SPAKE2, HMAC, SHA-256, hexadecimal decoding and H.264 decoding come from crates. Each
call stands in one small function whose contract is believed; the doc comment above it
says what is claimed. That a wrong PIN leads to another key, and that another TLS
session leads to another confirmation, are cryptographic claims: nothing in the library
states them.
