# Personal Knowledge OS

A source-grounded personal memory service: sources are ingested with a
SHA-256 fingerprint and cut into overlapping chunks, searched by lexical and
dense ranking fused with Reciprocal Rank Fusion, and distilled into memories
that a person or an automatic, evidence-checked pipeline promotes.

## Layout

- `src/` — the library, verified with Verus. Every decision the service makes
  is here with its contract: request checks (`capture`, `graph`, `memories`,
  `retrieval`), chunking (`chunking`), the checks on model proposals and the
  promotion policy (`memory_extraction`), the memory lifecycle (`memories`),
  job planning and retry policy (`jobs`), authentication (`auth`), settings
  (`config`), provider endpoints and prompts (`providers`), and the text
  primitives they share (`text`). Calls into outside crates stand behind
  small trusted functions in `outside` (and the integer parsers in `config`),
  each documenting what it claims.
- `tests/` — tests of the library on concrete values.
- `app/` — the program: HTTP server (axum), PostgreSQL storage (sqlx), the
  provider clients (reqwest) and the background worker. It performs the I/O
  and the floating-point arithmetic (score thresholds and clamping, vector
  encoding). The decisions that the SQL statements make themselves (which
  rows a query or a conditional update touches) stay in SQL; the library
  checks what those statements report.
