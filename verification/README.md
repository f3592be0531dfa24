# smetana

The verified core of Smetana, a construction-estimate application with a 2D
floor-plan editor (interface language: Russian).

A plan is point-first: points carry a position and a ceiling height; edges
join pairs of points; rooms (with cutouts), walls, doors and windows are
closed contours over point ids. Verus proves, for every edit, exactly what
it does to that topology (and laws such as "after removing a point nothing
refers to it"); no single invariant over whole plans is stated.

## Layout

- `src/model.rs` — the plan model and its operations (edges made sure of,
  edge splitting, cascading and "smart" point removal, lookups, copies);
  `src/contour.rs` and `src/seqs.rs` hold the contour and vector helpers.
- `src/plan_laws.rs` — properties of the plan operations that span calls.
- `src/history.rs` — snapshot undo/redo with a bounded history.
- `src/editor.rs` — the editor session: tools, selection, and what each
  click, drag, key or deletion does to the plan and the history.
- `src/price.rs` — price lists, their vocabulary, and the services that
  apply to a kind of object.
- `src/persistence.rs` — save-file names (joined by `std::path`) and the
  order of the saved-plan list.
- `src/dates.rs`, `src/civil.rs` — calendar arithmetic for file times.
- `src/wall_tool.rs` — the chaining wall tool's state.
- `src/ids.rs` — fresh random (version 4) identifiers.
- `app/` — a terminal front end: JSON files, file times, floating-point
  geometry (areas, perimeters, hit tests, snapping).

Geometry values are type parameters of the model (`f64` and `glam::DVec2`
in the front end), so the verified code never computes with floats.
