# roxlap-game-demo

A voxel asteroid-mining game on the roxlap engine. The game logic that works
on integers and collections is a Verus-verified library; the program around
it (window, input, physics on floats, rendering, UI) is ordinary Rust.

## Layout

- `src/` — the verified library
  - `hash.rs` — the SplitMix64 finalizer and its inverse (it is a bijection)
  - `chunks.rs` — chunk coordinates, per-chunk hashing and seeds, sphere listing
  - `chunk_set.rs`, `chunk_queue.rs`, `streaming.rs` — visited chunks, the
    deduplicating FIFO of chunks to generate, and the per-frame streaming gate
  - `voxel_model.rs` — the packed voxel volume (occupancy bits, colour ranks)
  - `voxel_edit.rs` — carving craters (through `roxlap_gpu::SpriteModel::set_voxel`)
  - `asteroid.rs`, `impact.rs` — minerals, destruction rule, projectile hits
  - `sprites.rs`, `rng.rs` — the small built-in models, asteroid colours and
    mineral picks (through `rand`)
  - `sky.rs` — stamping stars into the sky panorama
  - `model_file.rs` — reading the ship's `.kv6` model and the surface shape
    of a volume (through `roxlap_formats`)
  - `session.rs` — game state, camera mode and flight-key accumulation
- `tests/` — tests of the library
- `app/` — the game executable (SDL2 window, legion ECS, renderer, egui HUD)
