# pyroscope_kit

The logic of a sampling profiler for CPython, verified with Verus: finding the interpreter in
`/proc/self/maps`, finding its symbols in its ELF binary, the order in which the profiler is
prepared, what the signal handler and the reader thread do, and the configure/start protocol of
the C interface.

Whatever talks to the system is split in two. The library says what to do next and what the
answer means; the application does it.

| Module      | What it states |
|-------------|----------------|
| `bytes`     | searching, cutting and trimming byte strings |
| `numbers`   | unsigned numbers in ASCII digits |
| `debug`     | the bytes of debug output, write by write |
| `errors`    | initialisation errors and their codes |
| `maps`      | the lines of `/proc/<pid>/maps` and the search for Python in them |
| `maps_laws` | what holds of every such text |
| `elf`       | runtime addresses of `_PyRuntime` and `Py_Version` |
| `lifecycle` | configuring, starting, and starting again |
| `init`      | the steps of the preparation and the code of each failure |
| `handler`   | one sample, from the thread pointer to the notification |
| `reader`    | draining the shards and printing what they hold |
| `eventfd`   | event descriptors and sets of them |
| `mmap`      | anonymous mappings |

`app/` holds the system calls, files, threads, the signal handler's entry point and the C
interface. What concerns the inside of the interpreter (detecting its version, reading its debug
offsets, unwinding its stacks) comes in through the trait `Kit`.

Assumed without proof are `String::from_utf8_lossy` (in `maps`) and the parser of the `object`
crate (in `elf`).
