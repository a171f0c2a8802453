# termd

A terminal multiplexer in two halves. A daemon runs programs on PTYs, follows the output of each on a
terminal of its own, and serves it over gRPC; a client attaches to one PTY at a time and switches
between them with `screen`-like keys (`C-a ?` lists them).

- `src/` is the library, verified with Verus: the rules of both halves, as state machines and as
  functions on plain values.
  - `text`, `order`, `random`, `shared_bytes`: numbers as text, sorting, fresh ids, shared buffers.
  - `proto`: what client and server say to each other.
  - `pty`: PTYs, their subscribers and their registry; `pty::reader` turns reads, requests and the end
    of a process into what goes out; `pty::snapshot` writes screens and pages through the history.
  - `commands`, `server`: answers to requests, the fit of a PTY to its subscribers, what a subscriber
    is sent.
  - `cli`: which PTY is meant, and what the commands print.
  - `attach`: the client. `input` reads key bindings out of typed bytes; `raw`, `region`, `autowrap` and
    `cell` are the ways to paint; `list`, `scrollback` and `screens` are what is shown around a PTY;
    `session` is the state machine of it all.
- `app/` is the program around the library: sockets, threads, PTYs, the terminal. It performs what the
  library asks for and hands back what came of it. Terminals are libghostty's; `app/vt.rs` is the only
  file that talks to it.
- `tests/` runs the library on concrete values.

Contracts are stated over mathematical models: byte sequences for everything that is written, views of
the states, and what each step makes of them. What holds of several steps together is proved in the
functions named `law_...`, next to what they speak of.
