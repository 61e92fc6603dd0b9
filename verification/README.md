# rime

A Model Context Protocol server for Nix tooling. The library in `src/` holds its logic,
verified with Verus; `app/` holds the server itself (command line, MCP runtime, network and
process I/O).

- `text` — character-level text operations (search, replace, trimming, tag stripping,
  whitespace collapsing) with their specifications.
- `home_manager` — reading options out of the Home Manager manual page.
- `json` — the JSON documents the tools read, through `serde_json`.
- `command` — the `nix` command lines and what their output becomes.
- `tools` — the tools' arguments, commands and requests; wiki page addresses.
- `nixos`, `nvf` — option search expressions and the nvf manual listing.
- `handler` — the tool catalogue and routing of calls by name.
