# llhls

The core of a low-latency HLS ingest server, written in Verus: the functions
under `src/` carry contracts that the verifier proves. The few that call another
crate or an unspecified part of the standard library are marked `external_body`;
their contracts are taken as given, and their doc comments say what is claimed.

A publisher sends a stream over RTMP. An encoder cuts it into fragmented MP4
segments, the segments and their playlists are uploaded to an object store, and
when the stream ends it is made available for replay.

## Layout

- `src/text.rs`, `number.rs`, `order.rs`, `writer.rs`, `table.rs`, `float.rs`:
  texts, decimal numbers, orders of texts, tables keyed by text, and
  floating-point numbers on integers.
- `src/time.rs`, `digest.rs`, `buffer.rs`: moments, digests and shared buffers,
  on top of `chrono`, `sha2`, `hmac`, `hex` and `bytes`.
- `src/http.rs`, `auth.rs`, `session.rs`, `config.rs`: requests, authentication,
  what a publishing session does with its messages, and the configuration.
- `src/streaming/`: media and master playlists, the watcher that turns encoder
  output into uploads, the encoder pipelines, and streams from start to replay.
- `src/storage/`: the uploaders, the memory buffers, and the watcher of an
  output directory.
- `app/`: the server itself: sockets, processes, files and the network.
- `tests/`: what the library does on concrete values.

## Conventions

Public proof functions named `law_` state what holds across functions, over the
same models that the contracts of the functions use.

Texts are modelled as sequences of characters, durations and frame rates as
binary64 floating-point numbers, and moments as seconds and nanoseconds from the
Unix epoch. A function that reads
the clock states what holds for some moment; beside it stands one, named with
`_at`, that takes the moment and states exactly what it returns. Work that needs
the outside world is split: the library says what to do and takes back how it
went.
