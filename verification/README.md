# veil

The verified core of a compliance-gated shielded pool on a ledger with BN254
host functions.

`src/` is the library, written in Verus and proved:

| Module | What it holds |
|---|---|
| `uint`, `bytes`, `field` | 256-bit integers, big-endian encodings, the BN254 scalar field |
| `merkle`, `merkle_history` | the Merkle tree model and the pool's incremental tree with its root history |
| `pool` | deposits, the checks of a shielded spend, settlement, fees and public amounts |
| `asp_membership` | the allowlist tree every spend proves membership against |
| `faucet` | onboarding with a per-recipient cooldown |
| `groth16`, `groth16_verifier`, `verifier_boundary` | proof encoding, the demo verifier, the pairing equation, the public-input order |
| `crypto` | the ledger host's Keccak-256, BN254 curve operations and pairing check; G1 negation; the G2 validity the host demands |
| `poseidon2` | the width-3 Poseidon2 hash of two values with a domain separator |
| `fixture_tree`, `policy_inputs`, `fixture` | the offline proof fixture: whole-tree roots and paths, the policy transaction's values, their encodings |

The Merkle compression (Poseidon2, width 2) and the three-value note hash
(width 4) are taken as functions, so every statement about a tree or a note
is made for the function it is given; the two-value hash (width 3) is
computed in the library.

`tests/` runs the library on concrete values. `app/` drives the library
against a ledger environment (authorisation, token movements, events, calls
between contracts) and holds the fixture tool's proving and file output.
