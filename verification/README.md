# quartz_core

A verified library for Quartz, a command-line HTTP client that keeps its
requests as a tree of handles in a `.quartz` project directory, with
environments of variables, headers and cookies, a history of sent requests
and a per-user configuration.

- `src/` is the library, verified with Verus. The project directory is held
  as values (`EndpointStore`, `EnvStore`, `StateFiles`, `History`,
  `ConfigManager`), and every operation on it states in its contract what it
  reads and what it leaves behind. The commands of the program are in
  `src/action/`: each returns what the program prints, or the error it
  reports.
- `app/` is the program around it: command-line parsing, reading the
  project from disk and writing the changes back, sending requests over
  HTTP, the editor and the pager.
- `tests/` runs the library on concrete projects.
