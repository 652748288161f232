# otfcc

Readers and writers of OpenType font tables, verified with Verus.

Every reader is stated against a byte-level description of its table
(`*_ok` says when the table is readable, `*_matches` what is read), every
writer against the bytes or records it produces, and the round trips are
proved as lemmas.

Layout of `src/`:

- `binio`, `buffer`, `packet`, `handle`, `tag`, `order`: big-endian reads and
  writes, the output buffer, the font's table directory, glyph handles, table
  tags, and a stable ordering of keys.
- `base`: the BASE table (reading, the tag list and script records written
  per axis, tags as text).
- `cpal`, `colr`, `svg`, `vorg`, `ltsh`, `os_2`, `tsi5`, `gdef`: the tables of
  the same names.
- `tsi`, `tsi_layout`: the TSI0/TSI1 and TSI2/TSI3 tables, and the proof that
  reading back a written pair gives back its entries.
- `cff`: the CFF string table (SIDs of custom strings), the charset and the
  FDSelect ranges.

Tests are under `tests/`.
