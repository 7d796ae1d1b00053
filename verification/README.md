# amethyst_voxel

A voxel toolbox with its logic proved correct by Verus: voxels that nest
power-of-two grids of subvoxels, neighbour contexts across voxels and world
chunks, ambient occlusion data, face selection for meshing, a chunked world
whose window of loaded chunks follows the camera, a material atlas, and a
reader for MagicaVoxel `.vox` files.

## Layout

- `src/` — the verified library.
  - `voxel.rs`: subvoxel grids (index and coordinate arithmetic), the `Data`
    and `Voxel` traits, `NestedVoxel` and `SimpleVoxel`.
  - `side.rs`: the six faces of a voxel.
  - `context.rs`: answers about neighbouring subvoxels inside a voxel, across
    detail voxels, and across the chunks of a world.
  - `ambient_occlusion.rs`: the per-vertex occlusion grid shared by the faces
    of a voxel.
  - `triangulate.rs`: which faces of a detail voxel are drawn, and how a quad
    is split into triangles.
  - `world.rs`: the window of chunks of a world, and how it moves.
  - `material.rs`: materials, their storage, and the atlas they are baked into.
  - `vox.rs`: the `.vox` chunk format and its palette.
  - `io.rs`: placing the models of a `.vox` file into detail voxels.
  - `model.rs`: building a detail voxel from a model's voxel list.
  - `raycast.rs`: nested raycast results and what a ray finds in a grid cell.
- `tests/` — tests of the library.
- `app/` — the Amethyst integration: ECS systems, assets, rendering passes,
  and the floating point parts (raycasting, mesh geometry, material factors).
