# graph-node

The decisions that a graph node makes while it starts up: which Ethereum networks it serves and
through which nodes, which Postgres replicas it reads from, which queries it refuses, and when it
gives up on a thread pool that does not answer.

- `src/` is the library. Verus proves the contract of every function but five: the calls into the
  crates `url` (`parse_url`, `url_str`, `set_url_host` and `url_into_string` in `postgres`) and
  `graphql-parser` (`parse_query` in `queries`), whose contracts it believes. Each says what it
  claims of the outside function.
  - `network_args`: the `NAME:CAPABILITIES:URL` arguments.
  - `capabilities`, `networks`, `network_laws`: the table of networks and their nodes.
  - `indexing`: which networks are indexed and ingested.
  - `postgres`, `domains`: the URLs and pools of the read replicas, and the hosts they can have.
  - `queries`, `nesting`: the list of queries that cost too much, and how deep a query nests.
  - `settings`: the other settings of the command line and the environment.
  - `contention`: the watchdog of the thread pool.
  - `text`, `decimal`: strings and numerals.
- `app/` reads the command line, the environment and files, and starts the services.
- `tests/` runs the library.
