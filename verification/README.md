# seekmind

The core of SeekMind, a local document search tool: it scans the directories a
user picks, splits documents into chunks, and finds documents and paragraphs by
keyword and by meaning. This crate holds the rules of that work as a library
whose functions carry contracts proved by Verus; a small command line program
under `app/` does the reading, the spawning and the network around it.

## Layout

- `src/text.rs`, `src/search.rs`, `src/highlight.rs`: characters, search terms
  (lowercase ASCII words and Han bigrams) and highlight spans.
- `src/scanner.rs`, `src/documents.rs`, `src/media.rs`: which files are indexed,
  how their text is cleaned, split into paragraphs and chunks.
- `src/ranking.rs`, `src/history.rs`, `src/semantic.rs`: candidates of a search,
  snippets, the reasons shown for a rank, suggestions from the search history.
- `src/paths.rs`, `src/dirs.rs`, `src/indexing.rs`, `src/refresh.rs`,
  `src/reset.rs`: index directories, the directory tree, imports, index jobs.
- `src/parser.rs`, `src/stream.rs`, `src/sidecar.rs`, `src/locale.rs`,
  `src/converter.rs`: the Python parser sidecar, its request/response stream,
  where it and the storage live, the OCR languages and the office converter.
- `src/qa.rs`, `src/qa_context.rs`, `src/model_api.rs`, `src/cancel.rs`: the
  question answering: its context, the chat model API, cancellation of jobs.
- `src/collections.rs`, `src/models.rs`, `src/clock.rs`, `src/digest.rs`,
  `src/cli.rs`: collections and tags, views, timestamps, hashes, and the options
  of the benchmark and stress tools.
- `tests/`: tests of the library on concrete values.
- `app/`: the `seekmind` command (`scan`, `extract`, `runtime`, `storage`,
  `test-connection`, `ask`, `qa`, `stress-corpus`, and the option checks of
  the tools).

Calls into other crates (chrono, sha2, uuid, infer, futures-util, reqwest) and
into parts of std that Verus does not specify stand behind small trusted
functions, each with a doc comment that says what its contract claims.
