# tcp_router

A TCP message router for chat messages that mention token and pool
addresses. Each incoming JSON line is stored in PostgreSQL under every address
it mentions and forwarded to the consumer of each chain (Solana, Ethereum,
BNB; Base goes to the Ethereum consumer). A second TCP port answers queries
over the stored messages.

- `src/` is the verified library (Verus): the routing decisions
  (`router`), the address lists (`sorted`), the query protocol
  (`query_server`), the message codec and the caches in front of the store
  (`database`), the per-chain clients' delivery decisions (`clients`), and
  the configuration and message types.
- `app/` is the program around it: reading the settings file, the
  PostgreSQL pool and SQL, the TCP listeners, JSON in and out, and logging.
  Run with `test-client <TCP_ADDRESS:PORT> <MINT_ADDRESS>` it sends one
  sample message instead; with `unix-socket-listen` it prints the lines
  sent to a Unix socket.
- `tests/` exercises the library on concrete values.
