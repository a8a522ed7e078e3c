# codex-lb-rs

A local daemon that spreads Codex requests over several ChatGPT accounts, and the command line that
talks to it.

`src/` is the library: everything that the daemon decides, verified with Verus. It says which account
serves a request and what an answer of the upstream does to that account, how sessions stick to
accounts and how route commands move them, what a request costs, how usage reports, credential files
and event streams are read, how tokens are sealed, and what the status shows.

- `routing`, `lease`, `history`, `usage`, `double`: accounts that can be used, and which one is preferred
- `routes`, `route_actions`, `route_commands`, `route_binding`, `route_lookup`, `route_listing`,
  `route_laws`, `keys`, `hashing`, `affinity`, `session_registry`: sessions and their routes
- `sessions`, `session_laws`, `cli`: the rollouts on this machine, and what commands ask of the daemon
- `proxy`, `websocket`, `capture`, `upstream`, `refresh`: requests on their way to the upstream and back
- `accounts`, `auth_file`, `crypto`, `labels`, `admin`, `settings`, `models`, `config`: what is kept
- `pricing`, `ledger`, `backfill`: what requests cost, and the totals
- `status`, `waybar`, `figures`: what the status shows
- `text`, `json`, `encoding`, `ids`, `time`, `days`, `table`, `error`, `scheduler`: what the others stand on

Identifiers are 128-bit numbers, points in time are nanoseconds or milliseconds since 1970, and doubles
are given by their bits. Calls into other crates stand in small functions whose contracts are
believed; each says what is claimed of the call.

`app/` is the daemon itself: HTTP, WebSockets, the database, files and the command line. `tests/`
runs the library.
