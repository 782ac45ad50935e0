# renki

A library for building the launcher half of a two-part command line tool: the
small program on `PATH` that finds the repo it is run in, reads the engine
version that repo pins, builds that exact engine once into a shared cache, and
hands over to it with an absolute working directory.

```toml
[dependencies]
renki = "0.0.2"
```

## Layout

- `src/` is the library, written in Verus. Every decision the launcher makes
  is a function there with a contract that Verus proves: how the arguments are
  read and which of them are the launcher's own, how a config is read for its
  pin, how a pin becomes build attempts and a cache key, how the build
  registry records a run and what a collection pass keeps, how a tool
  descriptor is checked and where its material goes, and the messages that
  report those decisions.
  The few lines `app/` prints about its own disk and process work (a file that
  is not there, a build that produced no binary, an operating-system error) it
  formats itself.
- `app/` is the ordinary Rust around it: the environment, the disk, `git` and
  `cargo`, and the `exec` into the engine. Built engines and fetched tools go
  under the cache root; the build registry and the self-update marker go under
  the state root. It performs what the library
  decides and hands back what happened, and it carries the tool's hooks.
- `tests/` runs the library on concrete values.

Unix only: the handover is `exec`, which has no portable equivalent.
