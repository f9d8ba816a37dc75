# datakit

Small data-handling tools — JSON parsing, printing, validation and merging; CSV
and log processing; configuration loading; file encryption, hashing and key
generation; packet and network-check decisions — written in Verus with their
behaviour stated as `requires`/`ensures` contracts and proved.

Layout:

- `src/` — the verified library. Calls into outside crates (`serde_json`
  decoding, CSV records, packet headers with pnet, AES-GCM, AES-CBC, Argon2,
  PBKDF2, SHA-256, hex, regex, chrono, random numbers) sit behind small trusted wrappers whose contracts say what
  those crates do; everything around them is proved.
- `tests/` — tests of the library on concrete values.
- `app/` — the unverified edge: reading and writing files, the terminal, the
  network and async loops, serde/toml decoding into copies of the library's
  types, and the computations on floating-point numbers.
