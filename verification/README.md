# agent_mail_guard

The logic of a commit guard for repositories that several agents share, and of
the startup checks of the mail server beside it, as a library whose behaviour is
stated in contracts and proved with Verus.

- `src/` is the library. Every function states what it returns in `ensures`;
  public proof functions named `law_*` state what holds across functions.
- `tests/` runs the library on concrete values.
- `app/` is ordinary Rust around it: git, files, processes, sockets and the
  clock. It hands plain values to the library and carries out what it decides.

The guard reads the reservations of an archive (`reservations`, `expiry`),
collects the paths of a commit or a push (`name_status`, `push_scan`,
`git_retry`), and finds the reservations of other agents that they touch
(`paths`, `conflicts`, `check`). It installs itself as a git hook (`hooks`,
`chain_runner`, `plugin`).

Before a server starts, probes look at its port (`port`, `hosts`, `listeners`,
`processes`, `mcp_probe`), its storage and database (`probes`, `real_paths`,
`integrity`, `integrity_probe`), and say what is wrong and what to do
(`report`, `recovery_context`). A running server leaves a hint about itself
(`hint_writer`, `listeners`).

Calls into chrono, globset, jsonwebtoken and serde_json stand behind small
functions marked `external_body`; their doc comments say what is taken on trust.
