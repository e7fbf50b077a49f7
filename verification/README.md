# web_crawler

The verified core of a distributed web crawler.

- `src/` is the library, written in Verus: URL parsing and joining (through the
  `url` crate), domain normalisation and grouping, robots.txt parsing and rule
  checks, per-domain priority queues with a weighted lottery, priority scoring,
  link and text extraction from HTML (through the `regex` crate), redirect
  handling, the decisions of the per-domain and orchestrating agents, and the
  typed encoding and decoding of database rows.
- `tests/` exercises the library on concrete values.
- `app/` holds the agents' I/O: HTTP fetching, the database connection, and the
  agent runtime bindings.
