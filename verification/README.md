# Codrop

A folder that syncs itself across machines: every change is content-addressed, recorded in an
index with a vector clock, and exchanged with paired peers, which fetch only the chunks that they
lack. Concurrent edits keep both versions, deletes travel as tombstones, permission bits travel
with their files, symbolic links are recorded by their targets, and a peer's paths never lead out
of the synced tree.

- `src/` is the library, verified with Verus: clocks (`vclock`), content store (`store`,
  `chunker`, `digest`), index (`index`), engine (`engine`) and what it promises between devices
  (`convergence`), the exchange between peers (`proto`, `fetch`, `node`), pairing (`trust`),
  ignore rules (`ignores`), the decisions of the programs (`daemon`, `watcher`, `cli`), and the
  text and path functions beneath them (`text`, `linefile`, `strmap`, `paths`).
- `tests/` runs the library on concrete values.
- `app/` is the programs around it: files, SQLite, iroh connections, file events, the command
  line. It hands the library what was read and received, and performs the steps that it is given.

BLAKE3, FastCDC, gitignore matching and endpoint ids come from the `blake3`, `fastcdc`, `ignore`
and `iroh` crates; what is taken from them without proof stands in the contracts marked "Trusted".

`file-id` and `filetime` are not called: they stand in `Cargo.toml` to fix the versions of them that
`notify` brings in.
