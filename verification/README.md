# lyrecs

A lyric service core, verified with Verus: it reads the replies of the
Netease, Kugou and QQ Music services, decodes and parses KRC and LRC lyrics
into a lyric document (`Lrcx`), and answers which line a player shows at a
given time.

- `src/` is the verified library. Times are whole milliseconds.
  - `model.rs`: tags, timed lines and the `Lrcx` document.
  - `kugou.rs`, `netease.rs`, `qq.rs`: each service's songs, replies and lyric
    formats (KRC decoding and parsing, the LRC grammar, the best-match search).
  - `json.rs`: the JSON values the replies are read from, and their text.
  - `decimal.rs`: decimal numbers (with fraction, exponent, `inf`, `nan`)
    read to whole units, as lyric timings are written.
  - `parse_lyric.rs`: LRC time tags.
  - `lyric_file.rs`, `lyric_line.rs`, `search.rs`: lyric files, the line to
    show, search results.
  - `player.rs`: what the music player reports.
  - `laws.rs`: properties that span several operations.
  - `text.rs`: character-sequence utilities.
- `tests/` runs the library on concrete values.
- `app/` is a command-line front end: HTTP requests, files, caches and the
  conversion of documents to and from their JSON file form.
