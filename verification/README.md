# sa-mcp

An MCP server for SAP S/4HANA over OData V2 and V4. The library in `src/` holds
everything that the server decides, and is verified with Verus. The program in `app/`
does what has to touch the outside: command line, files, HTTP, WebSocket, standard input.

## What is verified

| Module | What it holds |
|---|---|
| `text`, `numeral`, `strmap`, `table` | texts, numbers as text, sorted maps, tables |
| `json` | JSON values, their equality and their canonical form |
| `codec` | fingerprints, percent-encoding |
| `config` | settings, names and paths that are accepted, entity patterns, paging, systems |
| `tenant` | who calls, which systems they may use, rate limits |
| `gated`, `cache` | approvals for writes, audit lines, metadata that is kept for a time |
| `field_acl` | which fields are hidden |
| `registry` | tools and prompts, and when they are offered |
| `edmx`, `odata` | metadata documents, addresses, errors, envelopes |
| `sap_client`, `pool` | calls of SAP systems as state machines |
| `entity`, `ops`, `handler` | entities, operations, and the requests of the protocol |
| `transport`, `startup` | sessions, origins, framing, settings files |
| `guarantees` | what holds of the server as a whole |

Contracts speak of mathematical models: texts are sequences of characters, maps are
sorted association lists, moments are nanoseconds that the caller passes in, and the
environment is a map that the caller passes in. A call of a SAP system is an exchange:
the library says what to send, the program sends it and hands back what came.

`guarantees` states, among other things, that a request never reaches a system that its
caller may not use, that closed entities are never touched, and that nothing is written
but what was validated, confirmed and not yet used.

## What is trusted

The wrappers around `serde_json`, `sha2`, `hex`, `base64` and `quick-xml`, and four
functions of the standard library. Each says above it what it claims.

## Layout

- `src/` the library
- `tests/` its tests
- `app/` the program
