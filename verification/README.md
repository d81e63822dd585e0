# ai-wiki

Builds personal knowledge bases: source documents are ingested into a
processing queue, an assistant CLI turns each queued item into interlinked
Obsidian wiki pages, and a terminal monitor and an MCP server expose the
queue and the wiki.

## Layout

- `src/` — the library, written in Verus and verified:
  - `queue.rs`, `queue_laws.rs` — the processing queue as a state machine
    over an abstract state, with its laws (claiming takes the queued item
    created first, which heads the listing in creation order, status
    changes read back, resets and deletions leave no
    in-progress or errored rows, counts report the rows).
  - `config.rs` — tool settings, the wiki registry, wiki resolution by
    name or working directory.
  - `detect.rs`, `path.rs`, `text.rs`, `clock.rs` — file classification by
    extension, Unix path components, string helpers, the form of the
    clock's timestamps and dates.
  - `wiki.rs`, `pages.rs` — page paths that stay under the wiki root, the
    initial wiki files, page listing order.
  - `ingest.rs`, `preprocess.rs`, `toc.rs` — ingestion bookkeeping, file
    lists, chapter splitting plans, archive limits, transcript choice.
  - `prompt.rs`, `session.rs`, `megabytes.rs` — the processing prompt, the
    decisions of a processing run, and sizes in megabytes as a double
    prints them, computed exactly in integers.
  - `monitor.rs`, `report.rs` — the queue monitor's key handling and the
    texts the commands print.
  - `tools.rs` — parameters of the MCP tools.
- `tests/` — tests of the library.
- `app/` — the `ai-wiki` program: the command line, SQLite storage of the
  queue, file system work, external tools, the terminal UI and the MCP
  server.

## Configuration

The global configuration lives in `~/.ai-wiki/config.toml` (or the file
named by `AI_WIKI_CONFIG`). Besides the tool paths and the wiki registry,
its `[process]` table names the assistant CLI that `process` runs
(`command`) and the file name under which `init` writes the wiki schema
(`schema_file`, `SCHEMA.md` when unset).
