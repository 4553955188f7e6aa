# SauceBottle

An anime artwork sorter: images dropped into an input folder are identified
by reverse image search on IQDB, their metadata is fetched from Danbooru,
Gelbooru or Yande.re, and the files are moved into a folder hierarchy built
from that metadata (fandom, character, artist, year, rating).

## Layout

- `src/` is the sorting logic, written in Verus and verified: every public
  function carries a `requires`/`ensures` contract over mathematical models
  (`Seq`, `Set`, spec functions), and the library's laws are public proof
  functions.
  - `text`, `words`, `search`, `numbers`: characters, words, substrings and
    decimal numbers.
  - `distance`, `encode`, `tags`: edit distance, percent-encoding, tag
    cleaning and blacklist checks.
  - `iqdb`: reading IQDB's result page and choosing the best match.
  - `json`, `booru`: credentials, request URLs and reading booru answers.
  - `models`: settings and results.
  - `media`, `placement`, `files`, `queue`: how an image is uploaded,
    where a result is saved and under which name, and the intake queue.
- `app/` is the Tauri application around the library: HTTP requests, the
  file system, the OS credential store, threads and the user interface.
- `tests/` runs the library on concrete values.

Calls into `regex`, `scraper`, `serde_json` and `uuid` stand behind small
trusted wrappers in `src/`, each documented with what its contract claims.
