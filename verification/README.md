# chat_server

The state and rules of a small multi-room chat server, verified with Verus,
and the program that serves it over TCP.

- `src/` is the library. `server` holds the registered users and the rooms and
  decides who receives which line; `roommap` and `usermap` hold rooms and
  users; `chatmap` and `clientinfo` describe clients of the one-on-one chat
  service; `command` and `client` say what a typed line means; `namemap` is the
  name-keyed map they are built on; `text` reads numbers and declares the
  two std text functions the library relies on without proof, and `channel`
  declares std's channel sender.
- `app/` is the program: it accepts connections, reads what users type and
  writes what the library computes for them.
- `tests/` runs the library on concrete values.
