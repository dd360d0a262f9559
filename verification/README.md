# upm — a package manager with a verified core

`upm` installs packages from GitHub repositories listed in a package index:
it resolves their dependencies, checks their SHA-256 checksums, keeps a
database of what is installed and records rollback points around each change.

The decisions are made by a library verified with Verus; a thin command-line
program performs the input and output around it.

## Layout

- `src/` — the verified library.
  - `package/index.rs`: the package index, found by name; search.
  - `package/manifest.rs`: package manifests and their validation.
  - `package/graph.rs`: walks along dependency edges.
  - `package/resolver.rs`: breadth-first dependency resolution, stated
    exactly by a specification of the walk.
  - `package/cycles.rs`: depth-first search for circular dependencies.
  - `package/installer.rs`: where sources come from, the checksum gate, the
    install record, and the step function that orders an installation
    (dependencies first, then the package).
  - `database.rs`, `rollback.rs`: installed packages and rollback points.
  - `verify.rs`: SHA-256 checksums in hexadecimal.
  - `registry.rs`: registering packages and the steps of publishing the index.
  - `groq.rs`, `groq_key.rs`: the build-plan service's request and reply.
  - `api/github.rs`, `config.rs`, `setup.rs`, `doctor.rs`, `path.rs`,
    `text.rs`, `keyed.rs`, `error.rs`: URLs, paths, shell setup, diagnostic
    verdicts and string helpers.
  - `laws.rs`: properties that relate several operations, proved.
- `tests/` — tests of the library on concrete values.
- `app/` — the program: argument parsing, files, HTTP, git and printing.

Only a few calls into outside crates (`sha2`, `hex`, `chrono`) and std are
trusted; each is a small wrapper whose contract says what the outside code
does.
