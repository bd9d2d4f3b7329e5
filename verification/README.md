# cargo-rbuild

Remote cargo builds over one TCP connection. The server builds; this machine runs what it built.
Whatever cargo would have executed is fetched and executed here, and cargo's own JSON says which file
that is, hash and all.

`src/` is the library, verified with Verus: every decision that either side of a session takes, with
its contract. `app/` is the program around it: sockets, files, processes, the terminal.

| module | what it holds |
| --- | --- |
| `wire` | messages and frames |
| `paths` | which names may cross the wire and become paths |
| `flags`, `meta`, `plan`, `command` | the command line, the manifest, and what the two come to |
| `globs`, `scan` | the `--include` globs, and what a walk over a tree yields |
| `files` | a tree's files, and what it takes to make another tree hold the same |
| `bodies`, `pack` | file bodies on their way there and back |
| `json` | cargo's report on what it built |
| `keys` | host keys, authorized keys, signatures |
| `session`, `server`, `plain` | the two sides of a session, and the plain client |
| `report`, `number`, `order`, `text` | sizes, numbers, sorting, strings |

What is not proved is declared as such, next to the call it is about: `globset` matches paths,
`ssh-key` reads keys, signs and verifies, `zstd` packs and unpacks, and the system gives random bytes.

`tests/` runs the library with those crates linked, whole sessions among it.
