# gosh_common

Helpers shared by the GOSH CLI and agent runtime, written in Verus:

- `src/` is the verified library: join token validation and framing, runtime binding
  normalisation and identity, the binding registry (add, exact lookup, removal, request
  matching, ordered listing, bulk loading), bootstrap bundles and agent keypairs, and the
  opening of sealed secret envelopes (X25519, HKDF-SHA256, AES-256-GCM). Calls into the
  `base64`, `x25519-dalek`, `hkdf`, `aes-gcm` and `zeroize` crates go through small trusted
  wrappers whose contracts name what those crates compute.
- `app/` holds what is not verified: the JSON forms of the library's types (serde), join
  token encoding and decoding through JSON, a registry shared between threads behind a
  `parking_lot` lock, binding files and secret key files, and the error messages.
- `tests/` runs the library on concrete values.
