# oxcraft

The wire formats and the protocol logic of a small Minecraft (Java edition) server,
written in Verus and proved against their contracts.

`src/` is the verified library:

- `varint`, `bytes_be`, `ser`, `types`: variable-length and big-endian integers, the
  `Serialize` / `Deserialize` traits with their specifications, strings, UUIDs,
  optional values, arrays, identifiers;
- `packets` and `packets/*`: packet framing and the handshake, status, login and play
  packets;
- `nbt`, `nbt_serde`, `nbt_laws`: NBT reading and writing, the rules by which values
  become NBT, and what reading gives back of what was written;
- `server`, `client`, `tool`: the decisions of the server's connections, of the load
  tester and of the command-line tool, as functions from what was received to what
  is to be done;
- `cli`: the command-line grammar of the tool and of the server;
- `logging`, `source`: the layout of log lines and of the context shown around an
  error;
- `laws`: what reading gives back of what was written, for the protocol types.

`app/` holds the programs around the library (sockets, files, threads, serde,
tracing and miette glue); `tests/` exercises the library.
