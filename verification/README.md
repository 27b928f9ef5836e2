# backdrop_blur

Frosted glass for GPU user interfaces: a surface whose background is the blurred, tinted copy of
what lies behind it.

- `src/` is the library, verified with Verus: geometry and material, the choice and parameters of
  the blur, the plan of resources and passes, the caches with their eviction, the mapping of
  faults to errors, and the order of a frame for two kinds of host.
- `app/` performs what the library plans: on a `wgpu` device, on a GL context through `glow`, and
  inside `egui`.
- `tests/` runs the library, among other things bit for bit against the floats of the machine.

The library never touches a GPU. Preparing a surface is a conversation: the library names the next
resource to create, the host creates it inside an error scope and hands back what the scope said.
