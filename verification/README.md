# world2

A streaming cube-sphere planet for Godot. The planet is six cube faces, each a quadtree of
chunks; every frame the runtime picks the chunks to render and to collide with, builds their
meshes on worker threads, and commits the differences to Godot's rendering and physics servers
under per-frame budgets.

## Layout

- `src/` — the verified library (Verus). It holds the chunk addressing and the cube topology
  (neighbors across face edges), the canonical chunk mesh with its sixteen stitch variants,
  surface classes, the metadata store, the selection balancing that keeps neighboring chunks
  within one level of each other, commit planning, ordering and budgeting, the surface and
  collision pools, the request bookkeeping that drops stale worker results, worker job queues,
  asset grouping, and the counters and summaries the runtime reports.
- `tests/` — tests of the library.
- `app/` — the Godot extension around the library: the `PlanetRoot` node, the terrain field and
  cube projection (floating point), visibility tests, mesh generation, the worker threads, and
  the calls into the rendering and physics servers.

Godot's `Rid` and `PackedByteArray` reach the library through declared types and small trusted
wrappers; everything else from Godot stays in `app/`.
