# dungeon

A small multiplayer dungeon and an online store, with their game and
business logic written in Verus and proved against its specifications.

## Layout

- `src/` — the verified library.
  - `dice`, `duel`: dice throws, damage, the monster of the threaded
    dungeon, and the one-on-one fight.
  - `board`, `arena`, `protocol`: the shared board, the single-server
    dungeon and the packets between heroes and servers.
  - `zones`, `zone_server`, `coordinator`: the board split into bands of
    rows among zone servers, and the coordinator that assigns them and hands
    a departed server's zone over.
  - `orb`: the object broker that routes attacks across zones.
  - `hero`: the hero's decisions, as a state machine driven by packets.
  - `loot`, `api`: the item pool of the web game and its API's sessions.
  - `accounts`, `catalog`, `purchases`, `status`: the store's users, items
    and purchases services.
- `tests/` — tests of the library on concrete values.
- `app/` — the programs around the library: sockets, WebSockets, HTTP
  servers (axum, actix-web), JSON, threads and timers. Run it with a
  subcommand, e.g. `threads`, `arena-server`, `coordinator`, `pwa-api`,
  `purchases-service`.

Prices in the store are kept in cents; the HTTP layer shows them as decimal
numbers.
