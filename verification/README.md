# race_gateway

A streaming gateway that races several upstream model endpoints ("candidates")
for each request and streams back the first usable answer, with an
administration API over a SQLite-backed configuration.

## Layout

- `src/` — the verified library (Verus). Configuration model and validation
  (`domain`), candidate resolution, the configuration catalog (`catalog`),
  administration rules (`control`), key pools, race decisions and buffering
  (`group`), protocol adapters for OpenAI, Anthropic and Google streams
  (`adapters`), SSE framing and request rewriting (`downstream`), race set-up
  (`runner`), run-time views (`runtime`), Gemini schema sanitising (`schema`,
  `gemini`), the Gemini request encoder (`codec`), proxy authentication,
  configuration defaults and the load-test command line. Laws about the
  validators' issue lists stand in `domain::laws` and `request_laws`.
- `app/` — the program around it: HTTP routers (axum), the SQLite store
  (sqlx), upstream requests (reqwest), the asynchronous race driver (tokio),
  candidate weights and launch schedule (floating point), metrics
  (prometheus), and the load-test tool (`race-gateway loadtest ...`).
- `tests/` — tests of the library.
