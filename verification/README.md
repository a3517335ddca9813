# usb_hive

Extraction of USB device history from Windows registry hives, verified with
Verus.

- `src/text.rs`: splitting and joining, substring search and byte-indexed
  slicing of text.
- `src/structure.rs`: the `UsbInfo` record, its text form, lookup by serial
  number.
- `src/timestamp.rs`: registry timestamps (100 ns counts since 1601) to text.
- `src/hive_check.rs`: a check over the bytes of a hive that `nt-hive` can
  open it and follow one path from the root key, then read the key there,
  without panicking: the signature, and every cell offset met on the way.
- `src/hive.rs`: reading keys and values through `nt-hive`, each read
  guarded by that check for its own path.
- `src/extract.rs`: the passes over the `SYSTEM` and `SOFTWARE` hives. Each
  pass requires that every key and value it needs can be read; its `try_`
  companion tests that first and gives the reason where it cannot.
- `src/laws.rs`: what the passes promise of the list of records.
- `app/main.rs`: the command-line program that reads `System`, `Software` and
  `NTUSER.dat` from the working directory and prints every record.
