# activity_monitor

A terminal dashboard of system activity (CPU, memory, disks, network,
Wi-Fi, processes), split into a library verified with Verus and a thin
program around it.

- `src/` is the library, every function of it verified:
  - `units`: byte counts and durations as text (`format_bytes` reproduces
    the value a double gives, rounded half to even at two decimals);
  - `netsh`: the report of `netsh wlan show interfaces`, read line by line,
    and the Wi-Fi figures taken from it;
  - `order`: the stable sort of table rows from highest to lowest rank, and
    the order of 32-bit floats read from their bits;
  - `state`: the dashboard's state: tabs, pause, process selection, key
    handling, Wi-Fi polling schedule, interface counters and rates, the
    network and process tables, and the bounded sample histories;
  - `view`: the text of every panel;
  - `theme`: the colours;
  - `text`: decimal rendering and character-sequence helpers.
- `app/main.rs` reads the system with `sysinfo`, runs the report command,
  draws with `ratatui` on a `crossterm` terminal, computes the few values that
  need floating point, and hands everything else to the library.
- `tests/` runs the library on concrete values, comparing the text and
  parsing functions with the standard library's float formatting and string
  methods.
