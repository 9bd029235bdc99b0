# connectalso

A virtual private network between devices: a control server that hands out
addresses, a relay, encrypted UDP tunnels, and the clients that use them.

`src/` is the library. It performs no input or output: it takes what was
received and the time, and says what to send and what has changed. Its
contracts are proved by Verus.

- `relay_proto`, `relay_server` – the relay's frames, and what the relay does
  with them.
- `key_exchange`, `tunnel` – sessions, tunnels, the choice between a direct and
  a relayed path, and the pool of relays.
- `traversal` – STUN, the kind of NAT, candidates and hole punching.
- `registry` – devices, addresses, access rules and candidates, as the control
  server keeps them.
- `acl`, `dns` – which traffic is allowed, and the names of the network.
- `engine`, `tun`, `desktop`, `cli` – the client's state, packets and texts.
- `addr`, `codec`, `text`, `error` – addresses, numbers on the wire, texts and
  errors.

What the proofs rest on without proof are the wrappers marked
`external_body`: random numbers, UUID texts, X25519, ChaCha20-Poly1305, and
two functions on text of the standard library.

`app/` holds the programs around the library: sockets, HTTP, SQLite, the
command line, the tray and the mobile bindings. `tests/` runs the library on
concrete values.
