# loopbox

The core of Loopbox, a local development hub: projects and their services,
the reverse proxy that serves them under local host names, the traffic it
records, the agent API audit log, licensing, and read-only views of a
Kubernetes cluster. The library is written in Verus: each public function
states in its contract what it returns, and Verus proves it.

## Layout

- `src/` — the verified library, one module per area:
  - configuration and projects: `config`, `projects`, `limits`, `features`
  - the HTTP/1 and gRPC proxy: `routes`, `http_meta`, `exchange`,
    `h2_stream`, `grpc`, `proto`, `preview`, `redact`, `status`
  - recorded traffic and its export: `traffic`, `har`, `clock`
  - the agent API audit log: `audit`
  - licensing and support: `license`, `polar`, `support`, `release`
  - containers and Kubernetes: `container`, `kube`, `kube_read`
  - text and JSON helpers: `text`, `json`
  - the agent tool inputs: `mcp`
- `tests/` — tests of the library on concrete values.
- `app/` — the input and output around the library: files, sockets,
  child processes (`kubectl`, `docker`, WireGuard) and HTTP requests.

Calls into `serde_json`, `sha2` and parts of `std` whose behaviour Verus does
not know stand behind small trusted functions; their doc comments say what
their contracts claim.
