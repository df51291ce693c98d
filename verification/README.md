# boggers_ts

The weight-governed core of a small x86-64 kernel, verified with Verus.
Every subsystem is a node with a weight in thousandths; the kernel is the
only node at full weight (1000) and the root of the hierarchy, and every
conflict, schedule and resource check is settled by weight alone.

## Layout

- `src/` — the verified library:
  - `ts` — the node registry, the running context and its weight checks,
    conflict resolution and the hierarchy dump;
  - `task` — tasks, the ready queue, and the executor that schedules ready
    tasks heaviest first and polls each scheduled entry once;
  - `drivers` — the drivers, registered under the kernel and initialized
    heaviest first;
  - `status_screen` — the GUI status screen and decimal text;
  - `syscall`, `shell` — system-call dispatch, and the console shell with
    its scancode decoding;
  - `fs`, `net` — the ramdisk and the loopback network queue;
  - `elf_loader`, `uptime`, `boot_display` — ELF headers, ticks and
    preemption, the boot framebuffer;
  - `strmap`, `sort` — the sorted string map and the stable weight sort they
    rest on.
- `tests/` — tests of the library on concrete values.
- `app/` — the kernel around it: boot, descriptor tables, interrupt
  handlers, the ready queue and wakers, devices and console output.

