# fasing

The structural core of a glyph-composition library, written in Verus: how
characters are put together from components, how a component's strokes sit on
an integer grid, and how the spaces between the grid lines are read and
allocated.

- `src/axis.rs`, `src/sorted.rs`: axes, positions, horizontal/vertical pairs,
  and sorted coordinate lists.
- `src/construct/`: construction kinds and their description characters,
  combinations of components, the construction table, character trees.
- `src/config/`: neighbour rules, kind and neighbour replacements.
- `src/service/combination.rs`: breaking a character down into its tree.
- `src/component/`: component prototypes, their allocations and grid views.
- `src/struc/`: structures of key paths, their attributes, attribute views,
  the per-structure data used for layout.
- `src/fas_file.rs`: allocation rules and weighted expressions.
- `app/`: JSON forms of the data, the structure file, and the floating-point
  measures of strokes and edges.

Every function in `src/` carries a contract that Verus proves; the outside
calls (regular expressions, appending to a string) stand behind a few trusted
wrappers whose contracts state what the crates document.
