# mock_server

A mock HTTP server. Mock rules are read from YAML files in a directory,
indexed by the first segment of their request path, and each request is
answered by the first rule that matches its method, path, query parameters,
headers and JSON body.

- `src/` is the verified library: the rule types (`config`), JSON bodies
  (`json`), the index (`index`), matching (`router`), index building
  (`loader`), the handler's decisions (`handler`), path and name text
  operations (`text`), and the routing laws (`laws`).
- `app/` is the program: directory walking, YAML parsing, the file watcher
  and the axum server.
