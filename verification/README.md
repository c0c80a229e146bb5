# unity_sprite_author

The verified core of a toolchain that authors Unity sprite and mesh assets
from TexturePacker atlases, and of its sprite-tree editor.

`src/` is a Verus library; every function there carries a contract that
Verus proves:

- `png` — a 1×1 RGBA PNG (color swatches), with CRC-32 and Adler-32.
- `text` — line splitting, trimming and searching over characters.
- `meta`, `meta_laws` — Unity `.meta` files: GUID parsing and minting,
  rendering, shape detection, the `alphaIsTransparency:` rewrite, and what
  holds across calls (a rendered file reads back, a rewrite re-run changes
  nothing).
- `manifest` — the `.tps.fab.json` sprite-tree manifest: every rule it
  checks, its methods and colors, and the bridge rules to the two outputs.
- `fab`, `combine` — slice methods, their source-rect constraints and the
  index buffers of the slice grids.
- `mesh_emit`, `mesh_text` — the Mesh `.asset` YAML text, half-precision
  conversion of a single-precision bit pattern, and the integer decisions
  of building a combined mesh: which renderer is refused, the tile and
  merged index lists, the empty-mesh check.
- `pipeline` — the decisions of one generate run, composed by
  `plan_generate` before anything is written: the SmartUpdate key, the
  atlas `.png.meta`, output names, orphans; and the layout of the atlas
  files and what to reimport.
- `cli` — argument parsing and the watch mode's change matching.
- `messages` — the text of every error.
- `editor` — node paths, trees and their structural edits, selection,
  undo/redo, the command palette, the pickers, colors and small UI state.

`app/` holds what Verus does not check: file and process I/O, JSON through
serde, and the floating-point arithmetic: node transforms and the vertex
positions, uvs and bounds of a combined mesh.

`tests/` runs the library on concrete values.
