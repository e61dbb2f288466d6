# capybara

The verified core of a TCP stack that migrates live connections between servers.

`src/` is a Verus library; every function in it carries a contract that Verus proves.

- `addr`, `byte_order`, `buffer`: IPv4 socket addresses as plain values, big-endian
  access to byte buffers (through `byteorder`), and byte buffers whose ends can be cut.
- `ipv4`: the IPv4 header: parsing with its error cases (of the protocol numbers, those of
  ICMPv4, TCP, UDP and TCPMig are known), serialization, the header checksum, and the law that
  parsing a serialized header gives it back.
- `stage`, `tcpmig_header`, `defragmenter`: the TCPMig segment header and its stage
  encoding, and reassembly of fragmented segments in any arrival order.
- `migration_header`: the older migration control segment and its byte checksum.
- `active_migration`: the per-connection migration protocol as a state machine that
  returns what to answer; sending and (de)serialising connection state is the caller's.
- `migration_table`: the migrations a server takes part in, keyed by connection: routing
  each TCPMig segment to its migration and saying whether to answer, migrate the
  connection out or in, or do nothing; starting migrations; packets buffered while a
  connection migrates in; and the choice of a connection to migrate out.
- `socket_table`: the TCP layer's sockets by queue descriptor: opening, binding,
  listening and connecting, with their refusals, and which socket kinds can be created;
  ephemeral ports are allocated by the caller.
- `tcp_stats`: the TCP layer's receive-queue statistics: handles polled into a global
  length and a bucket list, and the choice of connections to migrate out.
- `tcpmig_stats`: the migration layer's receive-queue statistics and bucket list.
- `minmax`, `delivery_rate`: the windowed min/max filter and the delivery-rate estimator
  used by BBR.
- `queue`: queue descriptors, the descriptor table (over `slab`), and per-poll migration
  bookkeeping.
- `profiler`: timing of named intervals.
- `state`: the interfaces through which migrated state is (de)serialised.

`app/` holds what Verus does not check: reading configuration from the environment and
the clock around the migration table, the
shared-memory feedback channel to the autokernel controller (raw memory, floating-point
parameters), and the per-thread profiler built on `profiler`.

`tests/` runs the library on concrete values.
