# sharun_compat

Runs programs built against a modern glibc on x86_64 kernels far older than that
glibc assumes. A tracer answers the calls that the kernel lacks: most are rewritten
into older ones, the others are emulated with a short sequence of calls made inside
the traced process. Two tools mend the symbol versions of the libraries that are
shipped along.

`src/` is the library. It decides, and its decisions are proved against the contracts
on its functions; it performs nothing. What it asks for is an `Action`, what it is
told in return an `Event` (`protocol`).

| module | what it holds |
| --- | --- |
| `tracer`, `tracer_laws` | what is done at each stop of each process |
| `emulated_syscalls`, `sequence`, `emulation_laws` | eventfd, timerfd and the calls that become sequences |
| `futex`, `statx`, `termios`, `sigill` | single translations |
| `kernel`, `seccomp`, `launch`, `wait` | what the kernel lacks, the filter, the start, wait statuses |
| `memory`, `maps`, `text` | memory and memory maps of a process |
| `elf`, `versions`, `fix_versions`, `fix_laws`, `refix_laws`, `unversion`, `restrip_laws` | the tools for symbol versions |
| `abi`, `bytes`, `decimal`, `time` | numbers, bytes and times |

`app/` is the program around it: it reads and writes, forks and traces, and hands the
library plain values. `tests/` drives the library from outside.
