# arca

A cross-platform archive tool (ZIP, tar, tar.gz/bz2/xz, single-file gz/bz2/xz)
whose decisions are verified with Verus.

- `src/` — the verified library: archive path policy and collision keys,
  format detection and output naming, resource limits, the scans that admit
  ZIP and tar entries, listing and manifests, what compression writes (modes,
  times, ZIP/tar settings), publish checks for extraction, integrity checks
  between passes and the order of the two passes, the streaming SHA-256
  digest of an archive, direct editing plans and saves, the desktop editor's
  operation registry, menus, startup arguments, file associations and `mimeapps.list`
  editing. Calls into `globset`, `sha2`, `percent-encoding`,
  `unicode-normalization`, `zip` (timestamps) and `zeroize` sit behind small
  trusted wrappers whose contracts say what the crates' sources show.
- `app/` — the `arca` command line and the editor's archive operations:
  argument parsing, password input, and the file-system and codec work
  (reading and writing archives with `zip`, `tar`, `flate2`, `bzip2`, `xz2`),
  asking the library at each decision.
- `tests/` — tests of the library on concrete values.
