# rust_journey

Small programs from a Rust learning journey, with their logic verified by Verus.

- `src/shapes.rs`: rectangles and their areas.
- `src/guessing.rs`: the number-guessing game's secret and how a typed line is judged
  (trimming and `u32` parsing as `str::trim` and `u32::from_str` do them).
- `src/httpie.rs`: the HTTP client's `key=value` arguments, the JSON body they make,
  URL checking and response-body formatting.
- `src/kv/`: the key-value protocol's frames (length header, optional gzip
  compression), the buffers of a frame stream, and the command-handling trait.
- `app/`: the programs themselves (terminal and network I/O, command-line parsing,
  async `Stream`/`Sink` plumbing), calling the library.
