# Chess Position Analyzer

A library for a local chess analysis server and for a chat agent that uses it, written in
Rust and verified with Verus. Two programs stand around it:

- `chess-pos-analyzer`, an MCP server with tools for one board session and for analyses by
  Stockfish;
- `chess-agent`, a chat agent that calls those tools.

## Layout

- `src/text.rs`: words, white space, numbers and the order of texts.
- `src/error.rs`: the errors that a tool reports.
- `src/fen.rs`: the part of a FEN that identifies a position.
- `src/position.rs`: positions and moves, on top of `shakmaty`.
- `src/pv_explain.rs`: principal variations with their captures and the material balance.
- `src/cache.rs`: analyses, and the bounded cache of them, on top of `lru`.
- `src/board.rs`: board sessions, which are played forward and taken back.
- `src/options.rs`, `src/engine.rs`: the engine's options, its state and its reports.
- `src/handshake.rs`, `src/search.rs`: the two dialogues with the engine, as functions from
  a state and an event to the next state and what to do.
- `src/config.rs`: the settings and where each of them comes from.
- `src/server.rs`: the tools, as functions on the server's state.
- `src/agent/`: the dialogue with the user, turns with the model, tool calls and how the
  server is started.
- `tests/`: tests of the library.
- `app/`: the programs: processes, files, the network, JSON and the command line.

## What is proved

The functions of `src/` have contracts over mathematical models: a position is its FEN, a
session its history, the cache its entries from the most to the least recently used. Only
what chance or the platform decides is left open: a new identifier, and which separator
paths are written with. Public
proof functions state what holds of several functions together: that taking a move back
restores the session, that a cached analysis answers the next request for it, that a
cancelled search sends `stop` once and never yields a result, and others beside the
functions they speak of.

What `shakmaty`, `lru`, `serde_json`, `uuid` and the standard library compute is stated in
the contracts of small wrappers, each with the outside function named above it.
