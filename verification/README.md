# pie_runtime

The data-handling core of the Pie engine, written in Verus: the functions in
`src/` are proved against their `requires`/`ensures` contracts, and the
properties that span several calls are stated and proved as `law_*` proof
functions.

## Layout

- `src/` — the verified library
  - `bytes`, `text`, `float_bits` — little-endian codecs, decimal/string
    helpers, and `f32` comparisons on IEEE-754 bit patterns
  - `pak`, `pak_loader`, `cooker`, `pipeline` — the `.pak` container, cooked
    payload encoding and decoding, and the cook-then-load round trip
  - `assets`, `gltf_scene`, `fbx`, `pie_mesh`, `shader` — handles, the asset
    registry, glTF document import, FBX binary parsing and triangulation,
    `.piemesh` splitting, shader paths
  - `net` — input sequence numbers and the client input buffer
  - `profiling` — durations, frame phases and the rolling timing history
  - `runtime`, `loop_runner`, `components`, `frame_alloc` — runtime
    configuration and arguments, main-loop limits and stop signal, plain
    components, the per-frame bump allocator; `sample_scene` — the fallback
    cube geometry
  - `editor`, `dock` — editor panels, launch arguments and the docking state
    machine
- `tests/` — executable tests of the library
- `app/` — the program around the library: file and window I/O, the ECS
  simulation and rendering glue, the tools CLI

Float-valued data (vertex attributes, transforms, colours) is carried as
IEEE-754 bit patterns in `u32`/`u64`, so the library can hold and move it
without floating-point arithmetic.
