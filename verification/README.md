# mirrorscope

A time-travel debugger that shows the tasks of a concurrent program rather than
its threads: goroutines, Tokio tasks and their `async fn` state machines, read
out of a paused process.

The library under `src/` is verified with Verus. It holds everything that is
decided or computed:

| module | what it holds |
| --- | --- |
| `model` | the task tree, its laws, logical frames, variables, timelines, wake causes |
| `process_view` | the view of a paused process that a decoder reads |
| `native` | the decoder that shows one task per thread |
| `go` | Go: versions, struct offsets, the walk over `runtime.allgs`, the decoder |
| `async_rust` | Rust: coroutine layouts, the decoder, and the enumeration of a Tokio runtime's tasks |
| `debug_info` | object files, their compressed sections, and DWARF units as plain values |
| `registry` | which decoder fits a binary |
| `dap` | the debug adapter: framing, requests, the session, the static target, and a recording's timeline |
| `json` | JSON values |
| `ebpf` | the records of syscall capture in the kernel, and their pairing |
| `ptrace_view` | what `/proc` says of a live process |
| `cli` | arguments and reports |
| `text`, `bytes` | numbers, searches and cuts |

A contract says what a function returns for every input: exactly, but for what a
debug target that changes answers next, which only the target knows. Where an
outside crate does the work (`object`, `gimli`, `serde_json`), a small trusted function
makes the call, and its doc comment says what is claimed of it.

`app/` is the program around it: argument handling, ptrace, eBPF, the replay
engine and stdio. `app/kernel/` is the kernel side of the capture, a program of
its own. `tests/` runs the library, whole binaries included.
