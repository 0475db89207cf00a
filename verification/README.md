# smackup

A small backup service that keeps every upload in several directories (the
`:`-separated `REPLICATION_LOCATIONS`) and serves them through a web page.

- `src/` is the library, verified with Verus: the list of locations and how
  they are synchronised, the chunked-upload state machine, the folder
  overview (sizes, extensions, breadcrumbs, relative paths), the headers of
  shown files and the check on new folder names, plus the text and number
  handling these rest on.
- `app/` is the program around it: environment, file system, the `axum`
  web server and the page template.
- `tests/` runs the library on concrete values.
