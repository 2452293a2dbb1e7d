# qcm_backend

The backend of the QCM music player: a full-text-search tokenizer, a media
cache that streams remote files while it stores them, and the request
handling around them. This crate holds the logic of the backend as a library
verified with Verus; `app/` holds the process around it (threads, files,
channels).

## Layout

- `src/tokenizer.rs`: splitting NFKC-normalized text into search tokens.
- `src/text.rs`: character classes and ASCII lower-casing.
- `src/piece.rs`: the downloaded byte ranges of a file, merged as writes arrive.
- `src/io.rs`: the IO state of the cache: writers, readers and waiters.
- `src/file_cache.rs`: the IO thread's table of open handles and its choice of
  the file a block is read from.
- `src/block_store.rs`, `src/source_actor.rs`: the block layout of cached
  sources, block states, and how a downloaded chunk is cut into block writes.
- `src/connection.rs`, `src/connection_handler.rs`, `src/reverse_handler.rs`,
  `src/bus.rs`: the state of a client connection, of the reverse proxy and of
  the event bus between them.
- `src/http_route.rs`, `src/media_key.rs`: routing of `GET` paths, parsing of
  ids, and the keys media are cached under.
- `src/db_filter.rs`: search filters turned into query clauses.
- `src/fts_schema.rs`: the SQL that sets up full-text search tables and their
  triggers.
- `src/error.rs`, `src/dispatch.rs`: request errors and how they are
  answered, and which handler a request message goes to.
- `src/sync_status.rs`, `src/global.rs`, `src/task.rs`, `src/convert.rs`:
  provider sync status, the registry of contexts, the task table, and the
  conversion traits.

Each module states its functions' behaviour in `requires`/`ensures` over
mathematical models (`Seq`, `Map`, `Set`), and the laws that relate several
functions as public proof functions (`lemma_*`).
