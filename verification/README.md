# maslow_desktop

A controller for the Maslow CNC running FluidNC, with its core verified by
Verus.

- `src/` is the verified library: the GRBL/FluidNC line protocol (status
  reports, acknowledgements, config dumps), the Maslow calibration state
  machine and the action policy built on it, character-counted G-code
  streaming with resume, the per-socket state machine that turns incoming
  lines, commands and timer ticks into the actions to perform, SD-card path
  and listing handling, API key hashing and checking, and the HTTP, gRPC
  and MCP API reference pages (the last two from plain descriptions of the
  services and tools). Each public function carries a contract; properties
  that span several calls are stated and proved as `law_*` proof functions.
- `app/` is the program around it: the WebSocket and HTTP I/O, the
  reconnecting connection loop, the HTTP/JSON API server (`serve`), files
  on disk, the command line, and the floating-point parts (reading numbers
  out of the texts the library isolates, the calibration solver, the
  toolpath preview).
- `tests/` runs the library on concrete inputs.
