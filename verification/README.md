# hakoniwa

A model of bead-craft projects (Hakoniwa): beads on a cubic grid are drawn into shapes,
flat planes of a shape are turned into pieces, and pieces are arranged in a hierarchy of
groups under one assembly. The library is written in Verus; every function in `src/` is
verified against its `requires`/`ensures` contract.

## Layout

- `src/geometry.rs` – grid positions, planes, placements and the 24 quarter-turn rotations
  of the cube, with the laws of rotation (inverse, composition, validity).
- `src/ordered.rs` – the keys of a map in ascending order, as the listings use them.
- `src/model.rs` – colors, beads, object references, groups, shapes, pieces, errors.
- `src/project.rs` – the project and its edits: creating, deleting, renaming, placing,
  showing and turning objects; `beads.rs` (bead edits), `hierarchy.rs` (moving objects
  between groups without cycles), `siblings.rs` (the ordered children of a group) and
  `listing.rs` (where moving an object after a sibling puts it in that listing),
  `convert.rs` (turning the plane of a shape into a piece), `legacy.rs` (migration of
  first-format projects).
- `src/validate.rs` – what validation reports; `invariants.rs` states a valid project rule
  by rule and proves it equal to what validation accepts; `keeps_valid.rs` proves that every
  edit, and so every sequence of edits, keeps a valid project valid.
- `src/analysis.rs`, `src/structure.rs` – output readiness, bead counts, the bead inventory
  and structural warnings.
- `src/editor.rs` – commands with undo and redo, and their laws.
- `src/plate.rs`, `src/workspace.rs`, `src/view3d.rs` – what the editing workspace computes:
  the plate layout of a piece, names, labels, the sample project, the parts tree, the 3D
  preview's occupied cells and visible faces.
- `src/text.rs` and `src/ibcad.rs` – the text form of positions in project files and the
  rules for reading and writing `.ibcad` files.
- `app/` – plain Rust around the library: the `.ibcad` ZIP/JSON files and the floating-point
  viewport of the piece editor. The graphical editor itself (windows and panes, painting, the
  3D camera) is not part of this crate and its GUI toolkit is not a dependency; the decisions
  it makes (names, selection, pen and eraser strokes, drags, plate layout, the parts tree,
  visible faces) stand verified in `src/workspace.rs`, `src/plate.rs` and `src/view3d.rs`.
- `tests/` – tests of the library on concrete values.
