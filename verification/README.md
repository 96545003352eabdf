# calix

Versioned key-value state for the parts ("submodules") of an editing
project: each submodule keeps a chain of commits, each commit holds the diff
from its parent's state, branches name commits, and two states that grew from
a common ancestor can be merged three ways.  A global timeline numbers the
commits of all submodules.

The library in `src/` is written in Verus and verified:

- `strmap.rs`: `StrMap`, the string-keyed map that states and branch stores
  are made of, modelled as a `Map` over the keys' characters.
- `commit.rs`: `Commit`, `Diff` (`apply`, `from_states`) and the laws that
  tie them together.
- `diff.rs`: `three_way_merge` and its laws.
- `branch.rs`: `Branch`, `BranchStore` and the invariant its operations keep.
- `submodule.rs`: submodule metadata, replaying a commit chain, reading a
  chain back from its head.
- `global.rs`: the global state, its timeline, the repository.
- `error.rs`: errors and conflict reports.
- `host.rs`: the clock, UUIDs and paths, each behind a small trusted item.

`app/` holds the file layer: MessagePack storage under `.calix`, the serde
and `thiserror` copies of the library's types, and the debug JSON of a
commit.
