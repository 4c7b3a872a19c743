# orchestrator

The decision logic of the Proxxy orchestrator — the server that registers
MITM proxy agents, checks their health, spreads intruder payloads over them,
tracks attack progress, records browser flows and answers the API — written
in Verus with its behaviour stated in contracts and proved.

## Layout

- `src/` — the verified library. Each module states what its functions return
  over spec functions and views, and the laws that tie functions together
  (`law_*` proof functions): scope rules, resource allocation, payload
  distribution and redistribution, attack validation and progress, result
  highlighting, statistics and exports, recording sessions and selectors,
  agent health, the agent registry, error handling and the API views.
- `tests/` — tests that run the compiled library, with the outside crates it
  calls (regex, glob, chrono, uuid, base64, serde_json, tokio) linked.
- `app/` — the program around the library: command-line arguments, logging,
  the periodic health check loop, the serialized forms of library values, and
  the floating-point weighting of load-balanced distributions.

Calls into outside crates go through small trusted wrappers whose contracts
name or describe the outside result; everything built on them is verified.
