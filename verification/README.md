# sinfo

Hardware inventory for Linux (and, for storage and USB, Windows): batteries,
block storage devices and USB devices as the kernel exports them in sysfs, and
the decisions of a live sensor poller.

- `src/` — the verified library. `platform::sysfs` gives the meaning of sysfs
  attribute text; `collectors::{battery, storage, usb}` turn what was read for
  each entry into records and list them in a stable order; `sensors::poller`
  plans the sensor sources and accounts for poll cycles. `text`, `numparse`
  and `sorting` hold the string, number and ordering machinery with their
  specifications.
- `app/` — the I/O: reading files and links, globbing, querying the system
  and WMI, and running the poller thread.
- `tests/` — tests of the library.
