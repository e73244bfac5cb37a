# rustyping

A ping monitor. It reads its targets from the Redis set `rustyping:targets`
(members written `name@address`), pings them over ICMP at a fixed interval,
and serves latency, error count, last latency and reachability per host as
Prometheus metrics on port 9898 under `/metrics`.

- `src/` is the verified library (Verus): parsing the set members and the
  numeric flags, the table of monitored hosts, the planning of each ping
  round, the metric updates that rounds and ping outcomes call for, the
  order in which the metric vectors are handed to the registry and what
  each of its answers leads to, and the routing of web requests. The
  registry's answers themselves depend on what it already holds and are
  not predicted.
- `app/` is the program around it: flags, Redis, ICMP, the network
  interfaces, the HTTP server, logging, and the float-valued metrics.
- `tests/` runs the library on concrete inputs.
