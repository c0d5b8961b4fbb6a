# Binance futures writer

Takes the best bid and ask of USD-margined futures from the exchange's WebSocket
streams and keeps them in a table in shared memory, where readers find them
without locks. Metrics about the connections go into a ring in shared memory.

- `src/` is the library, verified with Verus: decimal prices (`price`), symbol
  lists (`symbols`), the quote table and its sequence lock (`shm`), rings of
  256-byte messages (`ring`, `spsc_ring`, `spsc_writer`, `log_reader`), metrics
  and their messages (`metrics`, `wire`, `message_builder`), the connection loop
  as a state machine (`connection`, `streams`) and the log (`logger`). What holds
  of several functions together is stated in proof functions whose names begin
  with `law_`.
- `app/` is the program around it: files, memory maps, threads, sockets. Started
  under the name `log_reader` it shows the messages of a log ring.
- `tests/` runs the library on given values.

Exit codes: 1 the quote table or the metrics ring cannot be used, 2 or 3 a
connection has died, 10 a quote for an unknown symbol came in, 11 a quote could
not be written, 20 the symbol lists cannot be used.
