# microhop

A tiny initramfs: `microhop` is the `/init` program inside it, `microgen`
builds it. This crate holds the logic of both as a library verified with
Verus, and a thin executable around it.

## Layout

- `src/` — the verified library.
  - `text`, `strmap`: string helpers and a string map, specified over
    character sequences.
  - `config`, `blk`: the boot configuration and the probed block devices as
    plain values.
  - `cmdline`: the kernel command line as a map of parameters (masking,
    last-one-wins).
  - `kconfig`: kernel configuration parsing and its validation against a boot
    configuration.
  - `microhop`: device resolution, the mount plan of the root filesystem and
    the per-mount repair decisions.
  - `overlayfs`: the state machine that sets up an overlay root.
  - `fsck`: superblock locations, repair exit codes and the advanced recovery
    sequence.
  - `rootfs`, `recovery`: root switching decisions, recovery-mode input.
  - `microgen`, `rdgen`: the generator's decisions, module selection and the
    boot configuration it writes.
  - `gui`: finding a simple framebuffer in a device tree.
- `tests/` — tests of the library.
- `app/` — the executable: reads files, probes devices, mounts, runs the
  filesystem tools and drives the library's state machines. Started as
  `microgen` it generates an initramfs, under any other name it is the init
  program.
