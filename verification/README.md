# prometheus_client

A client library for the Open Metrics exposition format: counters, gauges and
info metrics are registered with a `Registry` and exposed as Open Metrics
text or as `io.prometheus.client` protobuf messages. The library is written
in Verus: its functions carry contracts that the verifier proves.

## Layout

- `src/registry.rs`: the registry, its prefixes, labels and sub-registries,
  and the encoding of everything registered with it.
- `src/encoding.rs`: encoders for label sets, values, descriptors and
  metrics, in either format; validation and escaping of metric names.
- `src/encoding/text.rs`, `src/encoding/protobuf.rs`: the two formats, with
  the exact text or messages each step produces, and the length-delimited
  framing of protobuf messages.
- `src/metrics/`: counters, gauges, info metrics, exemplars, metric
  constructors, and the sparse buckets of native histograms (recording an
  observation, halving the resolution, and the spans-and-deltas encoding,
  with a proof that decoding gives the buckets back).
- `src/process.rs`: the metrics of a running process, from figures read by
  the caller; for `/proc/<pid>/net/netstat`, the fields of a line and the
  octet counters of a header line and its value line (the file is read, and
  the values parsed as numbers, in `app/`).
- `src/counter.rs`, `src/gauge.rs`, `src/label.rs`: a counter and a gauge
  whose value store is chosen by its type alone, and label sets.
- `app/`: the parts that need the operating system or wire-format derives:
  the process collector that reads `/proc`, and the `prost` messages of the
  protobuf payload.
- `tests/`: tests of the library from the outside.

Values in the shared stores of counters and gauges change under concurrent
use, so their contracts say nothing of the numbers they return; floating
point values are not supported by the verified encoders.
