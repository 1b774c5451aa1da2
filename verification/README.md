# gamecore

The core of a small multiplayer 2D game server, verified with Verus.

- `src/` is the verified library:
  - `tiles`, `tile_sets`, `tile_map`: the tile sets of each map layer and map generation by
    wave-function collapse;
  - `store`: named records kept as text in a `sled` database;
  - `session`, `server`: player log-in, log-out, heartbeats and the sweep of silent
    addresses, and what the network front does with each message;
  - `entity`, `protocol`, `grid`, `command`: the messages, entity tags and coordinates;
  - `text`, `lists`: decimal numbers and comma-separated lists as the store keeps them.
- `tests/` runs the library on concrete values.
- `app/` is the server program: the UDP front (tokio), the physics world (rapier2d), the
  bincode wire format and the generation of the initial map into the database.
