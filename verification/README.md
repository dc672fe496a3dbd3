# as-proxy

A multi-port TCP proxy that understands the Aerospike protocol. It relays
whatever bytes come in, or it intercepts packets: writes are acknowledged by the
proxy and their operations cached for a short time, and reads of the same key
(namespace, set and digest) are answered from what is cached.
With Kafka it publishes what the server answers, or fills its cache from what
was published.

The library in `src/` is verified with Verus. The program in `app/` adds the
sockets, the configuration file, the logs and Kafka.

- `utils::format` states the wire format over byte sequences; `utils::parser`
  reads and writes it; `utils::laws` proves that the two undo each other.
- `utils::info` is the table of an info packet, `utils::text` cuts UTF-8 text,
  `utils::bytes` reads and writes big-endian numbers.
- `cache` is the diff cache: at most a fixed number of keys, the oldest goes.
- `state` is the configuration and what connections share.
- `handler` decides what becomes of a packet; `relay` turns that into what is
  sent on a connection.
- `laws` states what the proxy promises of every packet and of packets that
  follow each other.

To a proxy that does more than relay, some inputs breach the protocol: a field or an operation too short for what it
must hold, bytes behind a message, a flag that interception does not support.
The library reports them as `Fatal`. On an unsupported flag the program ends;
on the others the connection does.

What is taken on trust stands beside its doc comment: the reads of `byteorder`
and `std::io`, `String::from_utf8`, and the cache of `ttl_cache`, of which
nothing is claimed about the clock.
