# wxsl_core

The shader node graph model: a typed, acyclic graph of nodes that describes a
surface, the rules it has to keep, and the source it compiles to.

- `src/` is the library. Every function states what it returns or changes over
  the views of its types, and Verus proves it. What holds across functions
  stands in public proof functions: beside the functions they are about, or in
  `soundness.rs` (editing a graph), `layout_laws.rs` (buffers and inter-stage
  locations), `lighting_laws.rs` (shading), `codegen_laws.rs`, `parked.rs` and
  `pinned.rs` (compiling), and `tag_laws.rs` (tag expressions).
- `tests/` runs the library on chosen graphs, layouts and scenes.
- `app/` is ordinary Rust around the library: the copies of its types that are
  read and written as documents, and the error types that other crates expect.

Numbers that a GPU reads are 32 bits wide. Where a declaration could exceed
them, the functions that compute them ask that it does not
(`resources::layout_fits`, `resources::geometry_fits`), and
`Graph::has_countable_geometry`, `Graph::is_interface_bindable` and
`Graph::is_within_limits` tell whether it does.
