# exifweb

Static photo blog pages from photo EXIF and TOML configuration files.

- `src/` is the verified library: caption markup (footnotes, poems, block
  quotes, links, fractions), slugs, photo dates and outliers, photo sizes and
  image tool arguments, posts, series, categories and tags, the blog's
  chronology, render logs and the decisions of a render run. Calls into
  outside crates (`regex`, `regex-syntax`, `chrono`, `url`, `encoding`) stand
  in `src/outside.rs` and beside the code that makes them, each with the
  contract that is trusted of it.
- `app/` is the program: command line, file and process I/O, TOML and RON
  files, ExifTool's JSON, and map downloads.
- `tests/` runs the library on concrete values.
