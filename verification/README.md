# blocks

A voxel world, split in two.

`src/` is the library, verified with Verus:

- `chunks` holds the world: chunks of 16×16×16 blocks kept in an ordered map by chunk
  coordinates, block reads and writes by world position, the decisions of which chunks
  to unload and which to generate around the camera, the set of chunks to remesh after
  changes, and, in `chunks::render_chunk`, the face lists of a chunk's mesh and whether
  that mesh is rebuilt or dropped.
- `chunk` holds a single chunk with its own mesh and rebuild flag.
- `blocks` holds the terrain's block kinds.
- `ga` holds rotors and rigid motions of projective geometric algebra over any scalar
  type, with their products and reverses, and the laws of that algebra over `i64`.
- `gpu::storage_buffer` decides how large a storage buffer's memory is and when it is
  replaced.

`app/` is the program around it: the window and event loop, the GPU device, buffers and
pipelines, the camera, terrain noise, ray casting and colours, all of which work in
floating point or talk to the GPU. It reads its shader from `shaders/chunk.wgsl` at
start-up; that file is not part of this repository, and the program stops with a message
when it is missing.
