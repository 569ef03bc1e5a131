# nixauth

An authentication server for a small binary protocol over UDP, using SRP-6a
password verification in three steps (negotiate, ephemeral, proof).

- `src/` is the verified library: the wire format (`wire`, `reader`,
  `writer`, `requests`, `response`, `error`), the session table (`session`),
  the request handling (`handler`, `receiver`) and the user store interface
  (`storage`). Each step of the exchange is specified over the session table
  and the bytes written back.
- `app/` is the program: argument handling, the SQLite user store, the UDP
  loop, Ctrl-C handling and the SRP computations, which it runs between the
  two halves of the ephemeral and proof steps.
- `tests/` exercises the library on concrete values.
