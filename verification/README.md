# snake_web_client

The client side of a multiplayer snake game, split in two:

- `src/` is the verified library (Verus). `protocol` frames the MessagePack
  messages sent to the server and defines the server's messages; `tiles`
  holds the 64 x 32 tile grid and computes which tiles changed between two
  frames; `game` keeps the state fed by server messages, with the crown list
  kept sorted (stable, most crowns first); `board` joins them: joining,
  turning, drawing a frame, and the crown and leaderboard views.
- `app/` is the browser glue (wasm-bindgen, web-sys): it builds the DOM
  tiles, runs the WebSocket, decodes server messages with `rmp_serde`,
  hands them to the library, and repaints the tiles the library reports.
