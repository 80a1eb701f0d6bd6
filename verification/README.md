# rsi — verified core

The decision-making and text-handling core of a recursive self-improvement
simulator, written in Verus. Every function in `src/` carries a contract;
Verus proves them all except those of five small wrappers around std
functions that vstd does not specify (`String::push`, `char::from_u32`,
`char::is_alphanumeric`, `char::is_alphabetic`, `str::to_lowercase`), whose
contracts are trusted. The floating-point simulation model itself (cognitive
state, substrate, dynamics, meta-optimisers) is not part of this crate; the
drivers in `app/` take it through traits.

## Layout

- `src/json*.rs` — JSON values (numbers kept as their text, object keys
  sorted and unique), the parser and serialiser proved against a grammar, and
  the laws tying them (what is serialised parses back to itself; the
  serialisation is compact; a parsed value is well formed; `get` after `set`).
- `src/mcp.rs` — the Model Context Protocol front end: the tool catalogue,
  the handshake, and the planning of each JSON-RPC request (notifications are
  never answered; answers carry the request's identifier).
- `src/api.rs` — the command façade: command names, parameters, the session
  store (sessions by name, in name order) and the answers.
- `src/loop_ctrl.rs` — the loop pilot's stopping decisions.
- `src/llm.rs` — the client interface for proposal backends and the
  bookkeeping of the budgeted ascent they drive.
- `src/synthesis.rs` — candidate expression trees: size, preorder addressing
  of subtrees, replacement and growth.
- `src/knowledge.rs` — concepts learned from a corpus of documents.
- `src/hw_probe.rs` — reading the kernel's load and memory files.
- `src/criticality.rs`, `src/text.rs` — labels and character helpers.
- `app/` — floating point, I/O, clocks and the loops that alternate them with
  the library's decisions (the MCP server loop, the piloted run, the LLM
  ascent, the hardware probe).
