# picana

Reading CAN bus dumps, verified with Verus.

- `src/text.rs`: byte search, hexadecimal payloads, UTF-8 and radix
  numbers, with the outside calls (`memchr`, `hex`, `std::str::from_utf8`,
  `u64::from_str_radix`) behind small trusted wrappers.
- `src/picana_core/frame.rs`: CAN frames as plain values, built through
  `socketcan::CANFrame::new`.
- `src/picana_core/dump_parser.rs`: the candump line decoder, its
  specification `decode_line`, and the law that a line written from its
  fields decodes back to them.
- `src/picana_core/mmaped_file.rs`: a dump in memory and its line index
  (`hashbrown` map), with the laws that the index splits exactly at
  newlines and loses nothing.
- `src/picana_core/mmaped_file_manager.rs`: up to three dumps by key.
- `src/picana_core/definitions.rs`: DBC signal libraries (`canparse`).
- `src/picana_core/connections.rs`: the decisions of the threads that
  listen to live interfaces (stop, pause, deliver, report idle).
- `src/picana_core/mod.rs`: a session over dumps and libraries.
- `src/picana.rs`, `src/vm/`: values handed across the C boundary.
- `app/`: the C interface, file mapping, sockets and threads.
