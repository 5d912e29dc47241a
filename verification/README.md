# skills_web

The web surface of a skills manager: an HTTP server through which a browser can
look at the central library of skills, deploy skills to agents, and look after
the skills in an agent's own directory.

- `src/` is the library. It decides everything that the endpoints decide, and
  Verus proves that it decides as its contracts say. It reads no files, opens no
  sockets and touches no database: what the store or the disk answered comes in
  as a plain value, and what is to be done goes out as one.
- `app/` is the server around it: request parsing, the async runtime, the file
  system, and the trait through which the desktop application lends its store.
- `tests/` runs the library.

| module | what it holds |
|---|---|
| `error` | errors and the responses that report them |
| `text`, `path` | strings in order; paths taken lexically |
| `records` | what the store and the tools hand over |
| `resolve` | from references to skills, from keys to agents |
| `handlers` | endpoints that only read |
| `write_handlers` | deploy, undeploy, install, remove, tag |
| `local_skills` | which paths of an agent's directory a request may touch, and its listing |
| `batch` | import, delete and update of several entries, one at a time |
| `server` | the address and the routes |

Paths are written with `/`, as on Unix. Whether a path stays inside a directory
is decided by its text, so that an entry may be a link to some other place.
