# freeoxide_tunnel

`ft` publishes a local directory, server, command, webhook receiver or upload
bucket through a Cloudflare Quick Tunnel, and keeps a registry of what it
publishes.

- `src/` is the library: the registry, the names, the processes that may be
  signalled, the servers' decisions, the pages that they show, and the steps by
  which a service comes up and goes down. Every function states what it returns in
  `requires` and `ensures`, and Verus proves it. Each module ends with its laws:
  public proof functions that say what holds of several functions together.
- `app/` is the program: files, processes, sockets, the terminal. It asks the
  library what to do and does it.
- `tests/` runs the library on concrete values.

What is not proved is what the library asks of the standard library, of `chrono`,
`percent-encoding` and `comfy-table`. Each such function stands behind a small one
marked `external_body`, or an `assume_specification`, whose comment says what is
taken for granted.
