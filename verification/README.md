# move_crawler

A crawler that finds Move repositories on GitHub, downloads the ones that
are new or were updated since they were last recorded, and extracts them;
and a scan of Move sources for their module and struct declarations.

- `src/` is the library, written in Verus: every function carries a
  contract, and the properties that span several calls (what the scan of a
  source finds, what the record of commit dates answers after an insertion,
  what the searches keep) are proof functions.
- `app/` is the program: requests to GitHub, the waits between them, files
  and archives on disk. It asks the library what to do at each step.
- `tests/` holds the tests of the library.
