# hwscan

Processor and disk information for Linux, gathered from the text under
`/proc` and `/sys`, with the logic verified by Verus.

- `src/` is the verified library:
  - `text.rs`: substring search, removal of every occurrence of a pattern,
    splitting on a separator, lexicographic order and sorting of strings;
  - `number.rs`: reading decimal integers as `str::parse` does, and writing
    them, with the proof that one undoes the other;
  - `keyed.rs`: values under distinct names, seen as a map;
  - `cpu.rs`: what the lines of `/proc/cpuinfo`, the frequency limits and the
    cache descriptions make of a `Cpuinfo`;
  - `disk.rs`: disks, partitions (found with a regular expression), model
    names from udev's answers, and used and free space from mount figures;
  - `lib.rs`: the command-line requests.
- `app/` is the program: it reads the files, asks udev and `statvfs`, and
  prints what the library makes of it.
- `tests/` runs the library on concrete values.
