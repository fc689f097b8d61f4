# catos

The logic of CatOS, a small AMD64 kernel, as a Verus library, with the
kernel binary around it.

- `src/` is the library: the key queues, the task scheduler, the boot
  archive reader and the RAM file system, the shell's word splitting,
  command parser and line editor, the text console and the painting of its
  cells, the framebuffer ownership rules, the boot frame allocator, the
  programming sequences of the interrupt controller, timer and serial port,
  and the small C library the game links against.  Every function is
  proved against its contract, except three wrappers over the standard
  library (`core::str::from_utf8`, `String::push`, `String::pop`) whose
  contracts are taken on trust.
- `app/` is the kernel: boot through limine, paging and the heap, the
  interrupt table and handlers, port I/O, context switching and the C entry
  points.  It performs what the library decides.
- `tests/` runs the library on concrete inputs.
