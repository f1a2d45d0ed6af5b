# memory_viewer

A process memory viewer for Windows: pick a running process, open it, scan
its private memory for a value (32/64-bit integers, 32/64-bit floats, UTF-8
or UTF-16 text), narrow the results with further scans, and watch, freeze
or write values.

The logic is a Verus library, proved against its contracts:

- `src/text.rs` – trimming, decimal parsing and formatting of integers.
- `src/values.rs` – the bytes of a typed value and the text of typed bytes
  (integers little-endian, UTF-8, UTF-16LE), with round-trip laws.
- `src/scan.rs` – which regions are scanned, chunked reading of a region
  with the carried tail for text, exact hit lists, and the scan worker's
  messages; laws that a whole-region scan finds each occurrence once.
- `src/process.rs` – an opened process: starting a scan, next scans,
  watched rows, write verification, and the background scan's messages.
- `src/memory_write.rs` – the write that lifts page protection when a
  plain write falls short, as a state machine.
- `src/processes.rs`, `src/selector.rs` – the process list (stably sorted
  by name), the search and its grouping by name, row labels.
- `src/selection.rs` – selecting a process, with the reset warning while a
  process is opened.
- `src/console.rs` – the bounded, time-stamped message log.

`app/` is the program around it: the egui screens, the Windows calls
(opening processes, walking, reading and writing their memory), the
process list read through sysinfo, the background scan thread, and the
floating-point value text, which the library does not hold.
