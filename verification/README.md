# Slipstream

A Solana transaction client that sends transactions straight to the validators that lead the
coming slots, over QUIC.

- `src/` is the library: what is decided. Its contracts are proved with Verus.
  - `cartographer`: who leads which slot, and where it listens
  - `blocklist`: validators that are never targeted (Shield)
  - `config`, `error`, `metrics`, `text`, `addr`, `pubkey`, `double`: the parts that the rest is made of
  - `identity`, `engine`: the client certificate, and the connections that are kept
  - `geyser`: the endpoint and the messages of the slot stream, and when to connect again
  - `transaction`: the transfer that is sent
  - `session`, `compare`, `monitor`, `latency`: the commands
- `app/` is the command line around it: files, the network, printing. It also needs
  `solana-client`, `solana-rpc-client-api`, `reqwest` and `yellowstone-grpc-proto`, which
  `Cargo.toml` does not name so that the library's dependency tree stays small.
- `tests/` runs the library.

## Shield

A blocklist file holds one validator key per line; blank lines and lines that begin with `#` are
skipped.

- `SLIPSTREAM_BLOCKLIST_FILE` (default: `./blocklist.txt`)
- `SLIPSTREAM_BLOCKLIST_URL` (optional remote source)
- `SLIPSTREAM_BLOCKLIST_REFRESH_SECS` (default: `300`)

Blocked validators are neither targeted nor connected to ahead of their slots. The local file is
loaded at startup and refreshed in the background.
