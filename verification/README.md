# Yutani

The core of a GPU terminal emulator, written in Rust and verified with Verus.

`src/` is the library. Everything in it carries a contract that Verus proves:
the store of inline images with its budget, animations and previews; the way of
a payload into the grid; the UTF-8 stream of a pty; key and mouse encoding;
colour schemes; search; the ligature table; the bookkeeping of redraws, resizes
and the present thread; the first-run setup.

Where the library needs another crate (`image` for decoding, `toml` for scheme
files, `harfbuzz_rs` for shaping, `libc` for wait statuses) or a function of the
standard library that has no specification, the call stands behind a small
function whose contract is stated and not proved. Its doc comment says what the
contract claims.

`app/` is ordinary Rust around the library: files and the environment, the pty
and its child, the decode and present threads, wgpu resources, the window, and
all floating-point work. `tests/` runs the library.

| Module | What it holds |
| --- | --- |
| `images` | decoding, composing, previews, animations, the store, placements |
| `pty` | the text of a byte stream, exit codes, the login shell's name |
| `input` | bytes for keys and mouse events |
| `palette` | colour schemes and their colour cap |
| `search` | incremental search over terminal lines |
| `shaper` | ligatures of a font |
| `ring_buffer` | a bounded buffer that forgets its oldest items |
| `present`, `renderer` | render targets, blur and glow passes, quads |
| `window`, `selection`, `animation`, `perf` | the decisions of a window |
| `completions`, `history`, `text_field` | the command line's helpers |
| `paths`, `onboard` | configuration paths, scheme lists, the first-run setup |
