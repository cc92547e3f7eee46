# guru

The logic of a proxy fabric: a master that turns a canvas of pods, entries, relays,
exits and load balancers into per-server worker configs, and workers that serve them.
Everything under `src/` is verified with Verus.

- `net`, `display`, `text`: socket addresses, their textual forms, and string helpers.
- `worker_config`: the worker's config model, `Remote` parsing, validation and lints.
- `model`, `index`, `topology`: canvas rows, lookups, and the projection of pending
  edits onto a topology.
- `checks`, `cycles`, `analysis`: the topology checker; `ensure_valid` is what every
  mutation passes before anything is written.
- `derive`: per-server config derivation, pod by pod.
- `converge`, `rollout`: seamless switching (never point at an unserved listener,
  never drop a referenced one) and stamping of desired revisions.
- `node_edits`, `services`, `wire`: port layouts, spec replacement, the edits a
  request projects, and node specs as the operator API carries them.
- `agent`, `worker`, `rcu`: worker registration and watch state, the worker's
  decisions (address selection, load balancing, applying a config, reconnection
  backoff), and the garbage collection rule for retired rows.
- `token`, `password`: credentials, SHA-256 digests and Argon2id password hashing,
  through the `rand`, `sha2` and `argon2` crates.

`app/` is a small command-line tool around the library: it reads worker configs as
TOML, prints credentials and digests, and runs one server's derivation slot.
