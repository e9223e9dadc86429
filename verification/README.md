# sparmos

The logic of a small real-time engine, written in Verus: each function states what it
does in its contract, and the laws that tie functions together are proof functions.

`src/` is the verified library:

- `assets`: normal forms of asset paths, the asset cache, batch loading plans, manifests.
- `frame`: the passes of a frame and its post-process chain, compute dispatch and
  readback, what a window event sets off, frame pacing.
- `scene_graph`: scenes and render views in slot maps; the active scene and every view's
  scene are always live.
- `events`: routing window events to registered handlers, in registration order.
- `binding`, `layout`, `material`: bind group slots, vertex buffer layouts, the bind
  group layout of a material and the keys by which a material is reused.
- `effects`: the post-processing effects in the order they were added, each once.
- `instance`, `meshes`, `obj`: instance lattices, built-in meshes, grouping OBJ arrays
  into vertices.
- `midi`, `piano`, `synth`: MIDI note tracking, piano key names, sound triggers.
- `texture`, `render`, `engine`, `sprites`, `tui`, `geometry`, `physics`, `scene`: texture
  checks, render targets and masks, frame timing, sprite sheets, text frames, mesh keys and the
  meshes already uploaded.

`app/` holds what the library leaves to its caller: reading files, floating-point pitch
and placement, OBJ and sprite sheet parsing, and the loop's clock. `tests/` exercises
both the library's scenarios and its laws on concrete values.
