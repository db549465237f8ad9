# Ohara

Ohara scrapes the web on a topic, cleans the pages, indexes their chunks, extracts a typed entity
graph and answers questions with cited evidence. This repository holds its logic as a library that
is verified with Verus, and the program around it.

## Layout

- `src/` is the library. Every function states in its contract what it returns or changes, and
  Verus proves it. Public proof functions named `law_*` state what holds across functions.
  - `control` is the control plane: documents, the leased job queue with stage chaining, the audit
    trail, sites, workers, the entity registry with its merges, reviews and garbage collection, and
    the read models.
  - `knowledge` is the knowledge plane: collections, the aggregation of facts on an edge, breadth
    first walks, the in-memory store, and the decisions of the embedded and the remote stores.
  - `engine` is the fetch ladder: normalized addresses, robots rules, redirects, which addresses may
    be fetched, the browser protocol, topic search and the language model.
  - `scraper`, `cleaning`, `indexer`, `graph` and `retrieval` are what the processes decide about the
    artifacts that they exchange.
  - `config` validates every knob at boot; `ops` decides on backups and operator commands.
  - `text`, `order`, `assoc`, `rows`, `tally`, `ranking`, `reply`, `links`, `feed`, `web`, `markup`, `digest` and
    `embedding` are what the others rest on.
- `app/` is the program: files, network, SQLite, the services and the command line. It hands the
  library plain values and carries out what it answers. Floating-point scores are computed here; the
  library carries them by their bits.
- `tests/` runs the library.

## What is trusted

Calls into outside crates stand behind small wrappers marked `external_body`, each with a doc comment
that says what is claimed of the call and not proved. They are in `text`, `digest`, `web`, `feed`,
`cleaning`, `scraper`, `knowledge/collections`, `knowledge/edge`, `graph/entities` and `control/db`.
