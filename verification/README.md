# pty_host

A lightweight PTY shepherd that holds terminal sessions across client restarts.
A host process owns the PTY master and the shell; clients come and go over a Unix
socket, and a client that connects gets the terminal back as it is.

- `src/` is the library. It is written in Verus: the wire protocol, the session's
  state machine, the client's handshake, the command line, session discovery and
  title probing, with contracts and the laws that connect them (functions whose
  names start with `law_`).
- `app/` is the program around it: PTY and process creation, sockets, the event
  loop, terminal modes, logging.
- `tests/` runs the library on concrete values.

Functions marked `external_body` and `assume_specification` items state what the
library takes from other crates and from the standard library without proof; each
says so in its doc comment.
