# wildfly_meta

Metadata for WildFly container images and Galleon feature packs, and the version
expression language (`"3x10,23..26,5x28,34,dev,ai"`) that selects them, verified with Verus.

- `src/` is the verified library: the image and feature pack registries (kept sorted, one
  entry per key, as type invariants), the expression parser, shell completion, the
  semantic version order, the update decisions (what changed between two registries,
  what happens to the local configuration file, how an update is reported), and the load
  decisions (when a missing file is downloaded, the single retry after a failed load, the
  messages of a failed load).
- `app/` loads the TOML configuration files, downloads them from GitHub and writes them to
  `~/.config/wildfly-meta/`, calling the library for every decision.
- `tests/` runs the library on concrete registries.

The proof functions named `lemma_*` that are public state the laws of the library, among
them that the expression of an item parses back to the item, that parsing `a,b` gives the
results of `a` and `b` sorted together, that a stable sort is unique, that feature pack port
offsets are unique, that completion candidates are distinct, that a load downloads and
loads at most twice, and that an update only overwrites the local file with a newer
version.
