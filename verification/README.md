# r9

The logic of the r9 microkernel workspace, verified with Verus: the kernel's
IPC channels and interrupt bookkeeping, the userland protocols (name server,
console, framed debug print, process syscalls, heap growth, mailbox and
display servers), the ELF loader's checks, and the build tool's task-tree
checker, `todo.md` reconciler and command-line builders.

- `src/` is the library. Every function there carries a contract that Verus
  proves; the public `lemma_*` proof functions state the properties that
  hold across calls (what a bind makes a resolve return, that closing a
  channel twice is closing it once, that messages leave a channel in the
  order they entered, that a second `--fix` writes back the text the first
  one wrote, given task ids of task-id shape, names an entry line can hold
  and no rebuilt line that ends in a carriage return or holds the end
  marker, and so on). The one trusted item is the wrapper around
  `target_lexicon::Triple::from_str` in `src/toolchain.rs`.
- `tests/` runs the library on concrete values.
- `app/` is the ordinary Rust around it: the `xtask` command line, file and
  process I/O, the kernel's statics and locks, and the syscall plumbing that
  feeds the library's decoders.
