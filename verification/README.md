# netshaper

Per-device bandwidth shaping for the devices of a Wi-Fi network: phones pair
with the daemon by scanning a QR code, the administrator approves them and
sets their limits, and every packet the Windows Filtering Platform callout
intercepts is permitted or dropped by a token bucket of its address.

The library in `src/` is written in Verus, and each of its functions carries
a contract that Verus proves:

- `net`: IPv4 addresses, their dotted-decimal text and its parser.
- `clock`: clock readings and the exact arithmetic of token balances
  (balances are kept in billionths of a byte).
- `token_bucket`, `bucket`, `stats_listener`: the three token buckets (the
  pipe server's, the scheduler's with its queue of deferred packets, and the
  statistics listener's), with the rate-limit laws.
- `device_registry`, `scheduler`, `ipc`, `pipe_server`, `wfp_bridge`: the
  daemon's buckets per device, the scheduler tick, the IPC framing and the
  per-packet decisions.
- `registry`, `http`, `qr`, `lan`: paired devices, the decisions of the HTTP
  API, the pairing QR code as an SVG `data:` URL, and the choice of the LAN
  address from `ipconfig` output.
- `packet_tracker`, `packet_injector`, `callout`, `engine`, `proto`: the
  callout's pending packets, drop responses, classify steps and messages.
- `device_enrollment`, `handshake`, `cert`, `certificate`, `ui`: the
  enrollment store, the enrolled addresses, the certificate parameters and
  bundle, rcgen's certificates kept with what they were made with, and the
  control panel's data.

`app/` is the daemon program around the library: the HTTP server, the pipe
servers, the background loops, JSON and bincode forms of the library's types,
the enrollment file, and the control panel's HTTP client. `tests/` exercises
the library from outside.
