# scb_vka

BlackBox encrypted vault: a single-file container whose objects are sealed
with XChaCha20-Poly1305 under per-object data keys, wrapped by keys derived
from a password (Argon2id) and a hardware enclave.

The library under `src/` is written in Verus. Its functions are verified
against their contracts, except the small trusted wrappers that call the
outside crates and std (marked `external_body`, mostly in `primitives`):
their contracts are believed, and their doc comments say what they claim.

- `config`, `error`, `types`, `codec`, `util`, `text`: constants, the opaque
  error, key and nonce types, big-endian codecs, hex ids, text helpers.
- `layout`: superblock, vault header and file-table entry records, with
  encode/parse round trips.
- `space`: the block bitmap allocator (first fit among the data blocks,
  growth), with the law that freeing undoes allocating.
- `primitives`: the cryptographic calls (AEAD, HMAC, HKDF, Argon2id, SHA-3,
  hash-to-curve, CSPRNG), each behind a small trusted wrapper.
- `engine`: authenticated data, nonces, the key schedule, object sealing,
  data-key wrapping and the chunked stream with its running MAC.
- `vault`: A/B header slots (seal, open, select), the unlocked session and
  its plans for adding, reading, deleting and compacting objects.
- `hsp`, `machine`: TPM 2.0 command framing and response parsing, master-root
  expansion, device choice, machine identifiers.
- `memory`, `shell`, `log`: secure buffers and wipe patterns, shell input
  handling, event rendering.

`app/` is the command-line program: file I/O, locking, process hardening,
the TPM binding and the interactive shell, driving the library's plans.
