# wasm_pong

The logic of a Pong game with local and online play, verified with Verus. The game is
modelled as a series of events, so that other players and observers can join a game by
consuming them.

- `src/` is the verified library:
  - `rust_wasm`: integer geometry (bounding boxes, points) and pairwise collision detection;
  - `pong`: grouped collision detection, the collision callback registry, event payload
    buffers and the game's input types;
  - `client`: the browser client's input conversions;
  - `server`: sessions and their life cycle, the session manager, session hashes,
    request routing, query parameters, websocket admission and event selection, grouping
    of events by Kafka topic;
  - `proxy`: the topic manager service's routing, response bodies and partition counts;
  - `text`: string helpers (decimal rendering, character pushes, comparisons, lower-casing);
  - `search`: the first element of a sequence that satisfies a condition.
- `app/` is the program around it: the HTTP and websocket server, Kafka producers and
  consumers, JSON (de)serialization, the floating-point game physics and the browser client.
- `tests/` exercise the library on concrete values.
