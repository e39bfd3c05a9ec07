# orpheusmorebetter

Finds FLAC releases on the Orpheus tracker that lack MP3 or FLAC transcodes,
transcodes them, and prepares the uploads.

The crate is a Verus library with an ordinary Rust program around it.

- `src/` is the verified library. Its functions carry `requires`/`ensures`
  contracts proved by Verus, except a few trusted items whose contracts are
  taken on trust: the std wrappers `to_lowercase`, `to_uppercase`,
  `debug_string`, `push_char` and `string_from_utf8` in `text`, the
  specification of `str`'s `Hash::hash` and the declaration of
  `std::io::Error` in `models`, the rust-ini wrappers `parse_ini_section` and
  `write_ini_section` and the declaration of `ini::ParseError` in `config`,
  and the id3 wrapper `read_id3_fields` in
  `services::tagging`:
  - `text`, `numeric`: string and number handling (splitting, trimming,
    decimal parsing and printing) with mathematical models of their results;
  - `models`: formats, torrents, torrent groups and error messages;
  - `config`: reading the configuration file's text into an `AppConfig`,
    and the text of a fresh configuration file;
  - `services::tagging`: reading, checking, scrubbing and converting tags;
  - `services::transcode`: the decisions of a transcode and the encoder
    pipelines it runs;
  - `services::whatapi`: request pacing, request contents, answer checks and
    the torrent links found on tracker pages.
- `app/` does the I/O: HTTP requests, child processes, files, the SQLite
  cache, and the serde and thiserror copies of the library's types.
- `tests/` runs the library on concrete values.
