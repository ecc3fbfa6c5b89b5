# file_transfer

A small HTTP server that shares a directory with `curl` clients: `GET /dir/`
lists a directory, `GET /dir` downloads it as a zip archive, `GET /file`
downloads a file and `PUT /file` uploads one. An optional shared token
(`X-Token` header) and a read-only mode restrict access.

Layout:

- `src/` is the verified library (Verus): path resolution inside the shared
  directory (`paths`), request admission and dispatch (`routing`), directory
  listings (`listing`), size formatting (`size`), names of threads, archives
  and archive entries (`naming`), response headers (`response`) and the
  scheduling decisions of the server (`pacing`). Filesystem answers reach it as plain values.
- `app/` is the program around it: command line, the `tiny_http` server,
  worker threads, filesystem access and writing zip archives with `zip`.
- `tests/` runs the library on concrete values.
