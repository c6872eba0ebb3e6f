# starry

The decision logic of the system call layer of a Linux-compatible kernel, written
and verified with Verus.

A system call has two sides: what it decides, and what it asks of the machine. The
library is the first side. A call that only computes is a function. A call that
has to wait for the machine is a value that says what is to be done next and is
told what came of it. Contracts say exactly what each call returns, what it writes
to the caller's memory, what it asks for, and in which order.

## Layout

- `src/api/file`: the page cache. `page` is a cached page, `page_pool` the pool of
  pages that all files share, `page_cache` the cache of one file, `manager` the
  caches of all open files, `page_tables` what is known of page tables. `fs` holds
  file and directory objects. `page_cache_laws` states what the cache promises as a
  whole: a file reads as it was last written, whatever is evicted, read in or
  written back meanwhile, the gap before a write behind the end reads as zeros, a
  flush brings a page to the file, and what is stored through a mapping reaches it.
  `page_cache_use_laws` puts these together: a program reads back what it wrote,
  whatever is done with this and other files since, as long as nothing is written in
  the same place.
- `src/api/imp`: the system calls on files, memory, signals, tasks and time.
- `src/signal`: the signals of a task, and how they are delivered.
- `src/syscall_imp`: the signal calls of tasks that keep their signals themselves.
- `src/fd`: what file descriptors stand for.
- `src/mm.rs`: page faults.
- `src/addr.rs`, `src/bytes.rs`, `src/errno.rs`, `src/frame.rs`, `src/ordered.rs`,
  `src/text.rs`, `src/user.rs`: what the rest is built on.
- `app`: the calls as a kernel makes them, over traits for the file system, tasks,
  page tables, user memory, clocks and the network.
- `tests`: the library run on a small file system of its own.

Theorems that relate several functions are public proof functions whose names
begin with `law_`.
