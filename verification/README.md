# Iron-Proxy

A dual-engine (L4/L7) reverse proxy, with the rules it runs by proved in Verus.

- `src/` is the library: routing, health, rate limiting, the course of requests and
  connections, the summary of the cluster, and the gateway. Every function states in
  its contract what it returns or changes; the public proof functions state what holds
  of several of them together.
- `app/` is the program around it: sockets, TLS, files, signals, the configuration
  file, the metrics, and the arithmetic on doubles.
- `tests/` runs the library.

## How the library is laid out

| Module | Subject |
|---|---|
| `addr`, `text`, `pairs`, `float_bits`, `clock` | addresses, texts, lists of pairs, the order of doubles, the clocks |
| `router` | load and latency of the backends; least connections, lowest cost, sticky clients |
| `health`, `selection`, `ranking` | which backends are healthy, which of them a list of targets names, and their alphabetical order |
| `rate_limit` | a bucket of tokens for each client |
| `lifecycle` | a listener that drains before it stops |
| `proxy_l4`, `proxy_l7`, `handler` | the two engines, and the course of one HTTP request |
| `config`, `startup`, `cli`, `daemon`, `admin`, `status`, `tls` | configuration, command line, background process, health summary, PEM files |
| `gateway` | the TLS gateway: routing table, providers, shared rate limit, sessions |

Latencies, costs and tokens travel through the library as the bit patterns of doubles.
Comparing them is done and proved in `float_bits`; adding and multiplying them is left
to functions that the caller hands in.
