# Star Compass (verified library)

An end-to-end encryption toolkit whose keys are salted with three sources
(planetary trigram lines, an event hash, a private trigram sequence), with a
double ratchet, authenticated 128-byte blocks, Merkle anchoring, a GF(2)
matrix obfuscator and traffic shaping.  The library is written in Verus: its
functions carry `requires`/`ensures` contracts that Verus proves.

Layout:

- `src/` — the verified library
  - `tiers.rs` — the four security tiers and their configurations
  - `astro/` — planets, trigrams, planet lines and the three-source salt
  - `crypto/` — AEAD, block tags, HKDF key schedule, key pairs, Merkle tree,
    double ratchet (and saved ratchet state); `primitives.rs` holds the few
    trusted bindings to the hash, MAC, KDF, AEAD, curve and randomness crates
  - `keyring/` — master-key ring with symmetric and DH ratchet counters
  - `pipeline/` — matrix obfuscation (`gf2.rs` holds the linear algebra),
    block chunking and reassembly, traffic shaping, packet scheduling
  - `session.rs` — front-end logic: roles, argument parsing, packets, results
  - `text.rs`, `bytes.rs` — string and byte helpers (hex codec bindings)
- `tests/` — tests run against the compiled library
- `app/` — the command-line program (I/O, JSON state files, floating-point
  planetary positions)
