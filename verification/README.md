# ma_world

The verified core of a `did:ma` world server: rooms and their ACLs, avatars and their
handles, the entry ACL, knocks, the avatar registry, the reverse index of exits, command
parsing and routing for `@world`, rooms and avatars, the public inspection tree, world
access bundles (sealed with Argon2id and XChaCha20-Poly1305), and the command line and
startup settings.

- `src/` is the library, written in Verus: every function carries a contract that Verus
  proves. Calls into outside crates (base64, sha2, argon2, chacha20poly1305) go through a
  few trusted wrappers whose contracts follow those crates' sources.
- `tests/` runs the library on concrete values.
- `app/` is the command-line program around the library: files, the environment, and
  the serde forms of the library's types. It has no network runtime.
