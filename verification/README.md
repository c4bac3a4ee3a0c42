# rmap

A keyboard remapping core with a reader for DvorakJ layout files, verified
with Verus.

A DvorakJ layout file is a text file (UTF-8 or Shift_JIS) that names the
layout on its first line, maps physical keys through a base grid, declares
layer keys in an `-option-input` block, and fills layers, chords and prefix
layers from further grids. The library decodes such a file, strips its
`/* ... */` comments and parses it into a `Layout`; every step is stated as a
spec function over sequences and maps, and the executable code is proved to
compute it.

## Layout

- `src/text.rs`, `src/num.rs`: character-sequence helpers (trim, split,
  lines, find) and number parsing, each with its spec function.
- `src/keys.rs`, `src/keymap.rs`: key codes, DvorakJ key names, scan codes
  and virtual-key numbers.
- `src/output.rs`, `src/cell.rs`: output tokens and the compilation of one
  grid cell.
- `src/grid.rs`, `src/block.rs`, `src/comments.rs`: grids over physical
  keyboard rows, `[ ... ]` blocks and their headers, comment removal.
- `src/map.rs`, `src/layout.rs`: association maps with distinct keys, the
  `Layout` type and key-order canonicalisation.
- `src/parse.rs`: the parser, with `parse_dvorakj` proved equal to the spec
  `parse_layout`, and the invariant every parsed layout satisfies.
- `src/loader.rs`, `src/dvorakj.rs`: decoding by file name and the two
  loaders.
- `src/config.rs`, `src/ipc.rs`: per-application profiles and the control
  commands.
- `tests/`: tests on concrete files and values.
- `app/`: the command-line program (configuration files, reloading).
