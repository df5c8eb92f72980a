# oxyd_core

The verified core of Oxyd, a PostgREST-style API server over PostgreSQL with
JWT authentication.

- `src/` — the library, verified with Verus:
  - `virtual_crud/` — query-string parsing (`query`), the `SELECT`, `INSERT`,
    `UPDATE` and `DELETE` builders, the registry and access decisions, the mapping
    of database errors, and `laws` (identifiers are checked, values are always
    bound and never written into SQL text, writes are never unfiltered), and
    `placeholders` (a SELECT names exactly `$1` to `$n`, each once).
  - `auth/` — password hashing and verification (Argon2), refresh tokens and their
    stored hashes, access-token claims, and the decisions on credentials.
  - `general/` — the API error type and its HTTP statuses.
  - `text` — string helpers with exact specifications.
- `app/` — the server: Axum routes, SQLx queries, Moka caches, JWT signing and
  decoding, configuration.
- `tests/` — tests of the library on concrete values.
