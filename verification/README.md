# Fluvius

A stream processor for moving-object events such as GPS tracks and vehicle telemetry. Its
decisions are verified with Verus: what a pipeline does with an event, which alerts an
operator raises, what a topology is run as.

- `src/` is the library. It holds the pipeline and its laws (`run`, `pipeline`), the
  operators (`operator`, `cep`, `geofence`, `proximity`, `trajectory`), watermarks and
  counters (`watermark`, `metrics`), the connectors' decisions (`kafka`, `mqtt`,
  `websocket`), the topology and its plan (`topology`, `topology_run`), and the command
  line's (`cli`).
- `app/` is the `fluvius` binary around it: files, sockets, brokers, clocks, and the
  floating-point measurements that the operators are handed.
- `tests/` runs the library.

Floating-point values travel through the library as `Number`, which holds the bits of an
IEEE double and compares as one. Instants and spans are `Timestamp` and `Span`, on chrono.

A pipeline does no I/O. It says what to do next (`Pipeline::action`) and is told what came
of it, one call per action; the laws in `run` speak of every such sequence.

The binary keeps no windows and carries no spatial aggregation or map matching: a topology
that asks for one of these is refused at startup. Kafka needs librdkafka to build.
