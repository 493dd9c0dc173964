# pcb

A printed-circuit-board workspace: schematic, board, part library, design and
electrical rule checks, copper and silkscreen geometry, and the production
files (Gerber, Excellon, pick-and-place, bill of materials, ODB++) that a
fabricator is sent. The library under `src/` is written in Verus: every
function states what it returns or changes, and Verus proves it.

Lengths are whole nanometres, angles millionths of a degree, and sines and
cosines billionths, so every formula has one exact value. A length is printed
as the machine fraction of its millimetres would be.

## Layout

- Values: `units`, `rotation`, `geometry`, `ids`, `text`, `words`, `list`,
  `name_map`, `arith`, `binary`.
- Design: `schematic`, `board`, `library`, `project`, `event`, `profiles`.
- Placing and routing: `placement`, `relocate`, `routing`, `wiring`, `stitch`,
  `thermal`, `touching`, `islands`, `continuity`, `pending`.
- Checks: `violation`, `drc`, `erc`.
- Drawing: `hershey`, `glyphs`, `silkscreen`, `silk_clip`,
  `clip_cover`.
- Outputs: `gerber`, `excellon`, `csv`, `bom`, `pick_place`, `fab`, `spacing`,
  `bundle`, `zip_pack`, `tar`, `odb`, `odb_features`.
- Part photographs: `photo`, `rectify`.
- Commands: `tools`, `tools_parts`, `tools_place`, `tools_schematic`,
  `tools_view`, `relay`.

`tests/` runs the library from outside. `app/` is the program around it: the
command line, the server, files on disk, JSON, images, and the few formulas in
floating point.

## What is trusted

The calls into `uuid`, `zip`, `flate2` and `base64`, the `Debug` form of a
string and `String::push` are taken at their documentation. Each stands behind
a small item whose comment names the function that it calls and says what is
taken of it.
