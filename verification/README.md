# waku

The rules of a desktop client for coding agents, as a verified library: what the
transcript and the sidebar show, how a stream of provider events changes a
session, how tasks are opened, stopped and removed, what the settings pages
offer, and how an installed build is replaced.

- `src/` is the library. Every function states what it returns or changes, and
  Verus proves it. Laws that relate several functions are public proof functions.
- `tests/` runs the library on concrete values.
- `app/` is the ordinary Rust around it: processes, files, connections and
  lengths in pixels.

Lengths on the screen are counted in 64ths of a pixel. Identities are 128-bit
numbers. The clock and fresh identities are arguments, so that every decision is
a function of what it is given.
