# varlog

The verified core of Varlog, a log aggregation sidecar: which log files and
servers a token grants, how tokens are issued and checked, and how a log
file is read backwards, chunk by chunk, to answer with its newest lines.

- `src/` is the library, verified with Verus:
  - `rev_log`, `lines`: the backwards reader and the line splitting it rests on;
  - `logs`: selecting lines of a file, and which files a token may list or read;
  - `access`, `patterns`: granted patterns, anchoring, request validation;
  - `claims`, `headers`, `middleware`: token claims, bearer headers, the guard;
  - `servers`: requests about and to the other servers of the mesh;
  - `client`: the decisions of the browser client;
  - `http`, `text`: errors answered to clients, and string helpers.
- `app/` is the HTTP server around it (actix-web, reqwest, JWT signing,
  configuration, file access).
- `tests/` exercise the library on concrete values.
