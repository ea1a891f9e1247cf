# vitals_core

The sensor logic of a Linux system monitor (temperatures, voltages, fans,
memory, processor, system, network, storage, battery and GPU readings),
written in Verus and verified.

- `src/` is the verified library. It decides and parses; it reads no files
  (only the clock and the user's directories, through trusted wrappers):
  - `hwmon` groups the files of `/sys/class/hwmon` directories into sensors,
    labels them (with the known label clean-ups and numbering of repeated
    labels) and builds their keys;
  - `sensors::*` parse the kernel's text files (`/proc/stat`, `/proc/meminfo`,
    `/proc/loadavg`, `/proc/diskstats`, battery `uevent` files, `nvidia-smi`
    CSV lines, ...) into plain values, and keep each provider's state;
  - `history` keeps the time series of readings for the graphs and detects
    changed readings;
  - `format` holds the units, precision and duration rules of the displayed
    values; `config` the settings, their defaults and file locations;
  - `text` and `assoc` are the string and association-list helpers the rest
    is proved with.
- `app/` is the daemon around it: file and process I/O, floating-point
  arithmetic and formatting, the TOML and JSON files, and the D-Bus service.
- `tests/` runs the library on sample inputs.
