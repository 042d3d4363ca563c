# sherlock

A Bitcoin chain-analysis engine. It reads Bitcoin Core's `blk*.dat`,
`rev*.dat` and `xor.dat` files, parses every block and transaction, pairs
each block with its undo record by checksum, applies nine privacy heuristics
to every non-coinbase transaction, classifies it, and reports per-block and
per-file summaries.

## Layout

- `src/` is the library, verified with Verus. Every public function states
  what it returns in its `ensures`, over spec functions on plain values:
  - `io/` — the byte cursor (`BufferReader`) and the XOR de-obfuscation;
  - `parser/` — transactions (with their legacy re-serialization for txids),
    blocks (Merkle root, coinbase checks), undo records (VARINT, amount and
    script decompression, secp256k1 point decompression);
  - `analyzer/` — script classification and disassembly, BIP141 weights,
    the per-block context, and the block and file analysis;
  - `heuristics/` — the nine heuristics and the transaction classifier;
  - `reporter/` — the invariants a report must meet before it is written,
    and its Markdown form.
- `tests/` holds the tests, run against the compiled library.
- `app/` is the command-line program and the HTTP front end: file I/O, the
  JSON rendering, and the floating-point fee statistics (formatted there and
  handed to the library's Markdown report).

## Proved properties

Besides each function's contract, `src/` proves, among others: the XOR
decoding is an involution; CompactSize, VARINT and compressed amounts read
back what their writers produce; parsing the legacy serialization of a
transaction gives the transaction back, and bytes after a transaction do
not change its parse; zero padding after whole block records is ignored;
undo records are paired soundly
(each with a block it belongs to, none twice); an odd Merkle level may repeat
its last hash without changing the root; orphan blocks report zero fees and
have their heuristics skipped; the
script-type distribution counts every output once; and every report that the
analysis produces passes the report validator.
