# lora_ecla

A LoRa convergence layer for the DTN daemon dtn7: bundles handed over by the
daemon travel as protocol buffer packets over LoRa, queued by priority and
routed by one of three strategies (quadrant, random, spray and wait).

## Layout

- `src/` is the verified library. Every decision the daemon takes is here,
  with its contract:
  - `bundlequeue` — the priority queue of bundles and packets, its allowers
    and scorers, and the laws it keeps (what a pop returns, that an entry is
    held once, that rescoring is stable);
  - `strategy` — the strategies: settings read from the configuration, the
    quadrant core, the spray and wait history, the random core, packet
    metadata and the digest of bundle ids;
  - `global` — peers heard of, the node's own state, configurations and close
    targets;
  - `agents` — choosing the LoRa agent, and the line protocol of the
    rf95modem;
  - `actors` — what the actors answer and commit, and the command line's
    strategy arguments;
  - `protocol`, `parse`, `text`, `strmap`, `clock`, `airtime` — the packet
    types and the small helpers underneath.
- `tests/` runs the library on concrete values.
- `app/` is the daemon around it: tokio tasks, the event bus, serial port,
  websocket, HTTP, the ECLA client, protocol buffer encoding and the airtime
  arithmetic on floats.
