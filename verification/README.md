# chaos

A small preemptive real-time OS for Cortex-M, with its logic verified: every function of `src/` carries a contract that is proved.

- `src/` is the verified library: tasks and their initial stack frames
  (`task`), the scheduler interface and the round-robin scheduler
  (`scheduler`), the system object (`os`, `chaos`), the SysTick reload
  (`systick`), the PendSV decision (`exceptions`), the system calls
  (`syscalls`), the grammar of the `os` and `task` attribute arguments and
  the collection of an `os` module's tasks (`macros`), and the logic of the
  stand-alone demonstration program (`demo`).
- `app/` holds what touches the hardware or generates code: register
  access, the context-switch assembly, the exception handlers, and the
  expansion of the `os` attribute with `syn` and `quote`.
- `tests/` runs the library on concrete inputs.
