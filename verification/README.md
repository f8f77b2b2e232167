# minichain

A small peer-to-peer ledger: Ed25519-signed transactions, a mempool, account
balances and a chain of blocks linked by BLAKE3 hashes, verified with Verus.

- `src/` is the verified library: `hex` (hexadecimal text), `codec` (the byte
  layout that hashes are taken over), `crypto` (the calls into blake3,
  ed25519-dalek, uuid and the clock, with their contracts), `extrinsic`
  (transactions and the mempool), `accounts` (balances, settling transfers,
  total supply), `ledger` (blocks and the chain), `wallet` (keys, signing and
  checking signatures), `network` (messages and what a node does with them).
- `app/` runs two nodes over iroh gossip and turns received bytes back into
  messages.
- `tests/` exercises the library on concrete values.
