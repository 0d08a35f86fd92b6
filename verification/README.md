# v3_node

A node that follows Uniswap V3-style pools on an EVM peer-to-peer network.
The crate is written in Verus: `src/` is the verified library, `app/` the
program around it (command line, SQLite, the network stack and the async
loops), `tests/` exercises the library.

## Library modules

- `text` — positional notation (hexadecimal, decimal, byte strings) and the
  readers that recover values from digits.
- `primitives` — plain forms of addresses, hashes, peer ids and 256-bit
  integers, and their `0x` text.
- `db::models` — the rows stored for swaps and liquidity changes, and the
  lossless text encodings of their wide integers.
- `db::schema` — the migration statements and the order in which a run
  executes them.
- `pool::decoder` — decoding of pool calldata by function selector.
- `network::peer` — peer metadata and errors, the receipt request for each
  protocol version, and how a request to one peer is settled.
- `network::manager` — the peer table (every peer once, in joining order) and
  the receipt-fetch policy: a named peer, or round-robin with eviction of
  disconnected peers.
- `node::node` — matching gossiped transactions against the watched pools.
- `config`, `error` — pool configuration and the application error.
