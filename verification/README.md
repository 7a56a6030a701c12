# l4s_bench

Tools to benchmark congestion-control algorithms (TCP Prague, Cubic, BBR, Reno)
sharing a link behind a dualpi2 AQM router, with their logic verified by Verus.

- `src/` is the verified library: metric series and their VictoriaMetrics
  import payload, decoding of socket statistics (`/proc/net/tcp`, `TCP_INFO`,
  `ss` output), decoding of the router's traffic-control messages, recording
  of iperf3 reports, scenario generation and file naming, and the retry and
  progress decisions of the experiment runner. Contracts and laws are stated
  over `Seq`, `Map`-like entry lists and spec functions of `src/text.rs`.
- `app/` is the program around it: command-line parsing, the exporters'
  loops (netlink, sockets, HTTP), scenario files and the docker testbed.
- `tests/` runs the library on concrete inputs.

Subcommands: `metric-exporter`, `router-exporter`, `generate`, `run`,
`ss-exporter`, `fake-metrics`.
