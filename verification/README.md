# cargo_geiger (verified core)

The data model and the text-processing logic of a tool that reports how much
`unsafe` code a crate and its dependencies use, written in Verus and proved
against its contracts.

- `src/`: the verified library.
  - `counts`: safe/unsafe counters, their sums and the laws of those sums.
  - `package_id`, `key_set`, `entry_map`, `report`: package ids, sets of
    ids, entries filed by package id, and the report types.
  - `source_repr`, `text`, `url_parts`: where a package comes from, read from
    cargo's source and package-id descriptions (URLs are parsed by the `url`
    crate behind trusted wrappers).
  - `pattern`: rendering a package with an output pattern.
  - `ordering`, `id_order`, `sorting`: the order of texts and of package
    ids, one verified sort, and the sorted listings that the serialized
    reports use.
  - `paths`: file paths compared and ordered by their components, as
    `std::path::Path` compares them, and the set of paths a report holds.
  - `debug_text`: the debug texts of the report types, sorted and
    order-independent; only the quoting of strings and paths is left to std.
- `app/`: serde forms of the report types and the bridge from cargo metadata
  (`krates`) to the library.
- `tests/`: tests of the library.
