# queued-build-hook

Async queue daemon for Nix's `post-build-hook`, with its decisions verified by
Verus. Builds finish instantly; uploads run on a separate worker.

- `src/` is the verified library: the queue and its requests, the pause gate, the
  NetworkManager watcher, the workers with their hook runs, socket activation and
  the clients. `src/lib.rs` says which module holds what. `src/system.rs` states
  what holds of each step of the daemon as a whole, and `src/history.rs` what holds
  of whole runs, such as that no job is lost.
- `app/` is the program around it: arguments, sockets, processes, threads, D-Bus
  and JSON. It performs what the library decides, and hands back what came of it.
- `tests/` runs the library on concrete values.

## CLI

```
queued-build-hook daemon  --hook <path> [--socket <path>] [--control-socket <path>]
                          [--concurrency N] [--retries N] [--retry-interval-secs N]
                          [--pause-on-metered]
queued-build-hook enqueue --socket <path>     # reads DRV_PATH and OUT_PATHS env vars
queued-build-hook status  --socket <path>
queued-build-hook pause   --socket <path>
queued-build-hook resume  --socket <path>
```
