# fastviz

The decision logic of a ROS 2 visualizer, written in Verus and proved
against its contracts.

- `src/` is the verified library: the scene graph (upserts, style
  overrides, visibility, revisions), the TF tree (sample histories,
  bracketing, lookup plans and their diagnosis), marker batches and their
  entity slabs, topic discovery and the node loop, configuration merging,
  the side panel (grouping, bucketing, bulk visibility, labels), point-cloud
  layout checks, URDF kinematic structure and mimic resolution, mesh index
  buffers, GPU buffer sizing, the command line, the theme preference and
  color texts.
- `tests/` exercises the library on concrete values.
- `app/` is the program around it: reading files, the TOML schema with its
  floating-point display styles, float geometry (meshes, transforms, the
  mock scene) and the command-line entry point.

Verify with `verus` on `src/lib.rs`; the outside crates are `urdf-rs` (robot
descriptions) and `serde_json` (message bodies) in the library, plus `glam`,
`serde`, `toml`, `log` and `env_logger` in the program.
