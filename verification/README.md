# cobweb

A self-hosted headless-browser fetch sidecar. It resolves a page to the media
stream behind it: first over a fast path that looks like a desktop browser on
the wire, then with a real Chromium, then through an external FlareSolverr, and
it remembers what worked in a cookie jar per domain and exit.

## Layout

- `src/` is the library: every decision the service makes, in Verus, with its
  contract. Which targets and proxies may be reached (`ssrf`, `egress`), which
  tier runs next and what is kept of it (`pipeline`, `jar`), what the browser is
  told and how its events are read (`browser`), what the API answers (`api`),
  and the blocklist, the runtime settings and the counters.
- `tests/` runs the library on concrete values.
- `app/` is the program around it: `main`, HTTP server and client, processes,
  sockets, files, the clock, and the `serde` shapes on the wire and on disk.

## How the two halves meet

The library never waits. Where a decision needs the outside (a name looked up, a
proxy reached, a page fetched, an event from the browser) it says what it needs
and takes the answer as a value: `pipeline::Admission` for the guards,
`pipeline::Resolve` for the tiers, `browser::sniff::Sniff` for one sniff.

Times are numbers: nanoseconds since 1970 for instants, microseconds for cookie
expiries, milliseconds for timeouts and for the monotonic clock. JSON that the
logic reads is `json::Json`, whose fractional numbers are whole microunits.

Outside crates are called behind small wrappers that state what is relied on:
`url` (`weburl`), `globset` (`glob`), `regex` (`fastpath`), `psl` (`pipeline`),
`base64` (`browser::sniff`) and `serde_json` (`browser::cdp_engine`).
