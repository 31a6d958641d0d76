# echo_agent

The rules of an AI agent runtime, verified with Verus: hooks, skills, plugins, tools, prompt
templates, sandboxed commands, chat histories, sessions and model providers.

- `src/` is the library. Every function states in its contract what it returns or changes; the laws
  that relate several functions are the public proof functions whose names begin with `law_`.
- `tests/` runs the library on concrete values, with the outside crates linked.
- `app/` is the HTTP and WebSocket server around the library, with everything that reads and writes
  files, runs programs or talks to the network.

What the library takes on trust from outside crates stands next to its use, each item with the name
of the outside function and what is claimed of it: `serde_json` in `json.rs`, `serde_yaml_ng` in
`yaml.rs`, `glob` and `shlex` in `patterns.rs`, `regex` in `prompt_exec.rs`, `dashmap` in `tools.rs`,
`uuid` in `ids.rs`, `chrono` in `compression.rs`, and a few functions of the standard library in
`text.rs`.
