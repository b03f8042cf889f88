# rcore_kernel

A verified model of the core logic of a small RISC-V teaching kernel:

- `task`: process control blocks (creation, `fork`, `exec` with the argument
  layout on the user stack), the process table with its parent/child tree
  (exit and adoption of orphans by the initial process), scheduling queue,
  and signal delivery (kernel-handled SIGSTOP/SIGCONT/SIGKILL/SIGDEF, user
  handlers, masks).
- `syscall`: the file-descriptor calls (`open`, `close`, `dup`, `pipe`,
  `read`, `write`, `fstat`, `linkat`, `unlinkat`) and `mmap`/`munmap`.
- `mm`: the user address space: mapped pages and the user stack bytes.
- `fs`: the `File` trait, open flags, the status record and the root
  directory's links.
- `trap`: the user trap context.
- `notes`, `user`: small data structures of the study notes and of the user
  library.

`app/` holds what needs the machine or the host: the console and host
files, reading `sstatus`, access to user pointers for the calls on files and
pages (`read`, `write`, `fstat`, `open`, `close`, `dup`, `pipe`, `linkat`,
`unlinkat`, `mmap`, `munmap`), the global task table and directory, and the
loops that carry out what the library decides: handling signals until the
task may run, and putting the next ready task on the processor after a
suspension or an exit (the register-level switch itself needs the hart).
