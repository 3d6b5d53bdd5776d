# nrpctl

A small tool that sets up nginx reverse proxies (`nrpctl add example.com 8080`,
`nrpctl disable example.com`, ...), with its core proved correct by Verus.

- `src/` is the verified library: the proxies and their settings (`proxy`), the
  configuration that holds them in domain order (`config`), the transaction that decides
  what to undo when a step fails (`transaction`), SSL selections (`certbot`), errors
  (`error`), and the text helpers they rest on (`text`).
- `app/` is the command-line program: argument parsing, reading and writing the TOML
  configuration, writing nginx site files, and reloading nginx.
- `tests/` runs the library on concrete values.
