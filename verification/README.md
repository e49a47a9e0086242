# chainlab

Small blockchain and cryptography building blocks, written in Verus with
their behaviour stated in contracts and proved.

## Layout

- `src/` — the verified library.
  - Cryptography: `aes128` (a one-round teaching cipher), `sha256` (the FIPS
    180-4 hash, with its specification), `digest` and `text` (SHA-256 through
    the `sha2` crate, hexadecimal and decimal rendering), `rsa`, `paillier`,
    `primes` (Euclid's lemma, the binomial theorem, Fermat's little theorem,
    lifting to prime squares, the Chinese remainder step), `euclid`,
    `modular`, `power_mod`, the toy curve schemes `bls`, `ecdsa_ecies`,
    `ed25519` and `zksnarks`, and `curve_laws` (the group laws of point
    addition over a prime field).
  - Consensus and chains: `pow`, `testcodes` (transactions, blocks with
    Merkle roots, a linked chain), `imustchain`, `pbft`, `poh`, `pos`.
  - Protocols: `mpc` (Shamir sharing over the integers), `lagrange` (its
    round trip for every threshold, through finite differences), `ring_sig`
    (ECDSA P-256 through `ring`), `multisig` (P2SH multisignature through
    `bitcoin`).
  - On-chain programs as decision functions over plain account values:
    `onchain` (keys, accounts, errors, program-derived addresses), `ft`,
    `nft`, `sales`, `auction`, `stake`, and the Anchor marketplace
    `nft_sales`.
  - Language demos: `structdemos`, `enumdemos`, `traitdemo`, `traitdemos`.
- `tests/` — tests run against the compiled library with the real outside
  crates.
- `app/` — a command-line runner for the demos, the Solana and Anchor
  entry points (borsh encoding, sysvars, transfers), and the parts that use
  floating point or console input.

Calls into outside crates (`sha2`, `rand`, `ring`, `bitcoin`,
`solana-program`) go through a few trusted wrappers whose contracts are
documented where they are declared.
