# planet_voxels

The world logic of a 2D voxel-planet game, written in Verus: every function
in `src/` carries a contract that Verus proves.

- `planet::world` — chunks of 16×16 voxels in a hash map keyed by chunk
  position; reading and writing voxels by world coordinates, dirty flags for
  re-meshing (a write on a chunk border also marks the chunks that share it),
  loading and unloading chunks for a culling box.
- `planet::meshing` — the discrete part of dual contouring (which cells the
  surface crosses, across chunk borders), the shared border-vertex registry,
  greedy merging of full cells into rectangles, per-voxel quad meshes and the
  choice of which chunk meshes to rebuild.
- `planet::mesh`, `planet::startup` — the first-generation world with
  marching-squares cell meshes, exact in half-voxel units.
- `planet::debug`, `foliage`, `tiles` — debug toggles, foliage growth and
  texture-name parsing, tile data and sprite animation frames.
- `foreign` — the declarations of engine and library types and the trusted
  wrappers around the engine's hash map, Perlin noise, random numbers and
  Unicode character classes.

Every chunk holds a full 16×16 grid (a type invariant). Besides the
contracts, public proof functions state the laws the library keeps: a voxel
written in a loaded chunk reads back what was written, loading a box twice loads nothing
new, greedy meshing covers each marked cell exactly once and is unique, every
mesh is a valid triangle list, a chunk sees its neighbours' voxels as the world
does, and more.

`app/` is the game around the library: the engine plugins and systems,
terrain generation from noise, the floating-point vertex fitting of dual
contouring, and the debug drawing.
