# zenith

The decision logic of a disk-cleanup assistant, verified with Verus: the
signature catalog and its lint, the scan accounting, the stores that hold a
scan, a cleanup plan and a cancellation, the size measurement's bookkeeping,
and the settings rules. Every public function states its result in `ensures`,
and the laws that span functions are proved in `src/laws.rs`.

Layout:

- `src/` — the verified library, one module per concern:
  - `signature`, `registry`, `loader`, `exclusions`, `lint` — catalog
    entries, the catalog, manifest preparation, the exclusion rules and the
    manifest lint;
  - `scan_types`, `engine`, `eligibility`, `relationship`, `observation` —
    what a scan reports, the scan pass (its category loop and the event
    stream it hands out, from the start to the finished result), how
    categories, scans and scan slices are summed, the eligibility breakdown,
    how two cleanup units relate, traversal counters;
  - `scan_store`, `plan_store`, `cancellation`, `cleanup` — the scan
    snapshot and its continuation, reviewed plans, running-scan
    cancellation, whether a cleanup intent may proceed, quick-clean selection;
  - `size`, `walker` — the per-entry decisions of a directory measurement
    (`DirectoryTally`) and of a tree walk (`TreeTally`, with stale-entry
    accounting), the items for a fixed unit, an aged unit, an aged child and
    for what could not be inspected, item identities and names;
  - `settings`, `settings_store`, `system` — preferences, the settings file's
    backups, the container-runtime status cache;
  - `text`, `models`, `clock` — shared string rules, data model, time.
- `tests/` — tests of the library.
- `app/` — the parts that touch the filesystem and other crates' derives:
  manifest parsing, settings files, the directory reads that hand each entry
  to the verified tallies, the scan loop that runs a `ScanPass` over the
  disk, file identities.
