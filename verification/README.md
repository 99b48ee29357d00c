# wgpu_tiled

Render pass state types and a verified planner for multi-subpass render passes
on tile-based GPUs.

- `src/render_graph.rs`: `RenderGraphBuilder` collects attachments and subpasses;
  `build` validates them and derives per-subpass layouts, input attachments and
  by-region dependencies; `RenderGraph::resolve_active` checks which subpasses
  may be culled. Its contracts are stated over `BuilderView` / `RenderGraphView`,
  and the laws at the end of the file (dependency shape, input sources, culling)
  are proved from them.
- `src/active_mask.rs`: the 32-bit active-subpass mask and its laws.
- `src/subpass.rs`, `src/render.rs`, `src/format.rs`: plain state types with
  their queries and defaults.
- `app/`: what stays outside the verified library: the floating-point depth bias
  state and the depth/stencil state that holds it, `bitflags`/`bytemuck`/`serde`
  companions of library types, and `Send`/`Sync` assertions.
- `tests/`: scenario tests of every module.
