# agent_mouth

The communication safety layer of an agent toolchain, as a Verus-verified
library with a thin program around it.

`src/` (verified):

- `approval` — validates bash commands: the source is parsed with the
  tree-sitter bash grammar and its nodes are checked against the policy:
  `rm -rf`, `eval`/`source`/`.`, `dd` and fork bombs on commands and
  function definitions, `curl … | sh`/`bash` on pipelines, `chmod -R 777`,
  and redirections to `/dev/sd*`; Slack request
  signatures (HMAC-SHA256, `v0=` hex) and a comparison that does not stop
  at the first differing byte.
- `serve` — the decisions behind the HTTP routes: which command a Slack
  approval request carries (JSON `text`, first action `value`,
  `message.text`, `payload=` form bodies, else the first line), whether the
  request is authorized, and what is answered.
- `summarize` — the local log summary (line counts by keyword, the first
  twenty problem lines), the excerpt sent to an AI service, and the choice
  of summarizer.
- `mcp_server`, `notify`, `config` — the MCP server's state and approval
  requests, webhook results, configuration defaults.
- `syntax`, `text` — tree-sitter access and character-level helpers.

`app/` holds the CLI, the axum daemon, the MCP stdio server, HTTP calls,
file and stdin reading, and the configuration file.
