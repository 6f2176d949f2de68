# xtop-layout (verified)

Data-driven layout definitions for the xtop TUI system monitor, written in
Verus: the library's logic is proved against its contracts.

- `src/model.rs`: the layout tree (`LayoutDef` → splits of areas → widget
  leaves), the raw shape in which layout files spell it (`LayoutDefRaw`,
  `LayoutAreaRaw`, `SizeRaw`), validation from raw to tree (`try_from`) and
  the mirror conversion back (`into_raw`), with the round-trip law.
- `src/loader.rs`: JSONC comment stripping, merging user layouts into the
  defaults (user wins by name, slots preserved), the layout-file rule.
- `src/mode.rs`: built-in layout modes, palette slots and terminal-size
  degradation rules.
- `src/text.rs`: character-level helpers (decimal notation, ASCII case).
- `app/lib.rs`: the serde and filesystem plumbing around the library
  (`parse_layout`, `parse_layout_err`, `load_layouts_from_dir`, JSON writing).

The embedded default layouts (`default_layouts` and `default_layout_sources`
of the original crate) are absent: the layout asset files they embed were
not provided, so neither the list of sources nor the function that parses
them could be written.
