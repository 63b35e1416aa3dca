# gatecmd

An MCP server that lets AI agents inside virtual machines run pre-approved
commands on the host, with the allowlist logic proved correct in Verus.

- `src/` — the verified library:
  - `text`: whitespace (Unicode `White_Space`), trimming, splitting into words,
    decimal numerals, padding;
  - `config`: the allowlist types, command lookup, and the checks that loading
    a configuration makes;
  - `sanitizer`: validation of an argument string against a command's patterns
    and of file paths against the shared root, with the laws that accepted
    arguments fit a pattern, hold no shell metacharacters, and keep file
    arguments under the root;
  - `paths`: path equality by components;
  - `auth`: the bearer-token decision;
  - `server`: what each MCP tool decides and answers.
- `app/` — the program: YAML loading, the axum/rmcp HTTP server, process
  execution and file-system work.
- `tests/` — tests of the library.
