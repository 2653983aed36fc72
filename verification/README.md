# evsieve

A verified library for evsieve, the tool that reads events from input devices, maps, blocks,
hooks and toggles them as its command line says, and writes them to virtual output devices.

- `src/` is the library, written in Verus: the parsing of the command line and of keys, the
  capabilities of devices and the merging of their ranges, the stream of events through maps,
  hooks, toggles, delays and withholds, the format of the capability cache, and the decisions of
  the main loop. Each public function carries a contract; the laws that relate several functions
  are public proof functions next to them.
- `tests/` holds the tests, in plain Rust.
- `app/` is the program around the library: reading the environment and files, and printing.

Run the tests with `cargo test`; verify `src/` with Verus.
