# editorconfig_store

A store of the [EditorConfig](https://editorconfig.org) files that govern a set of worktrees. It is
told of the configuration files in each worktree, finds those in the directories above it, follows
their changes, and answers which properties hold for a path. It is written in Rust and verified
with Verus.

- `src/model.rs` says what the store holds and how each operation changes it; the contracts in
  `src/store.rs` and `src/store/` are stated over it.
- `src/laws.rs`, `src/precedence.rs` and `src/search.rs` state what holds of the store as a whole.
- `src/outside.rs` holds everything that is taken on trust: what `ec4rs` and `smallvec` do.
- `src/paths.rs`, `src/order.rs` and `src/sorted_map.rs` hold paths, their order, and maps that keep
  it.
- `app/` loads and watches files for the store.
