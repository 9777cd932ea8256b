# FeRamDisk firmware core

A USB mass-storage disk on ferroelectric RAM: an STM32G431 presents four SPI chips as one FAT12
volume over the Bulk-Only Transport. This crate is its core, written and verified in Verus.

- `src/storage` - the metadata journal in front of the file allocation tables and the root
  directory, what it promises of a medium that lost power, and the FAT12 volume that a blank
  memory is given.
- `src/usb` - command and status wrappers, the SCSI commands, their data phases, the session, the
  descriptors, and the control requests.
- `src/drivers` - which chip holds which bytes, and the commands that reach them.
- `src/backend` - bringing the disk up, and the simulated memory, disk and endpoint that tests use.
- `tests` - the behaviour on concrete values.
- `app` - the firmware around the core: clocks, interrupts, SPI transfers and the USB tasks, which
  wait and transfer while the core decides.

## What is proved

Every executable function of `src` carries a contract, and none of it is trusted. Among the laws
that relate functions to each other:

- a protected write is atomic: wherever power is lost in it, and however its last write to the
  medium was torn, the next start finds the old block or the new one, and the new one as soon as
  the commit marker was written (`storage::journal::crash`);
- starting up can itself be interrupted, as often as it may be, and finds the same blocks;
- a medium that was formatted is not formatted again, and its tables and root directory are what
  the journal protects (`storage::volume`);
- a host reads back what it wrote, one command is one answer under its tag, and what a command
  moved and what it says is missing make up what the host expects (`usb::laws`, `usb::session`).

The traits `JournalBackend`, `BlockStorage` and `DataEndpoint` describe devices by spec functions:
what is on them, what was asked of them and which errors came. A driver in plain Rust implements the
executable part of a trait and answers for its contract itself.
