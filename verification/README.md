# dsh-launcher

A launcher for the dsh web service, with its decisions proved in Verus.

`src/` is the library. Its functions state in their contracts what they return and change, and Verus
proves it:

- texts and lines: `model` (what they mean), `text` (how they are computed), `text_lemmas`, `text_map`,
  `yaml_text`, `json`
- blocks that the launcher keeps inside files of the user: `plugin::managed`, with its laws in
  `plugin::managed_laws`, `plugin::managed_families`, `plugin::managed_endings` and
  `plugin::managed_round_trip`; `plugin::patch_file`, `plugin::file_lock`
- plugins: `plugin::{spec, state, registry, dump, dump_text, guard, discover, service, switch,
  operations, lifecycle, sync_plan}`, `profile`
- tool servers: `mcp`, `mcp_change`, `mcp_laws`, `mcp_text`, `mcp_text_laws`
- the service as a process: `process`, `manager`, `command`, `stream`, `port`
- versions and tools: `semver`, `github`, `version`, `toolchain`, `double`, `pathutil`, `paths`
- settings, logs and the rest: `config`, `dates`, `logging`, `cli`, `cli_add`, `editor`, `skill`,
  `window`, `events`

`tests/` runs the library. `app/` is the program around it: files, processes, sockets, the command
line, and on Windows the registry, sealed data and the window.

What is believed without proof is small: a few functions of std (`text`, `stream`) and what
`serde_json` reads from a document (`json`). Each such function says so where it stands.
