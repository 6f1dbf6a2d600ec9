# srb_lens

A verified library that reads the outputs of the Sorbet type checker for
Ruby (`--print=cfg-text`, `--print=symbol-table-json`, `--print=autogen`
and `--print=parse-tree-json-with-locs`) and joins them into a queryable
model of a project's classes and methods: arguments and return types,
calls with the branch conditions that lead to them, instance variables,
rescued exceptions, block use, control-flow graphs and source locations.

## Layout

- `src/` — the library, written in Verus. Every function carries a
  contract, and all are proved except three small wrappers around standard
  library calls (`String::from_iter` over characters, `str::to_lowercase`,
  and the `Debug` text of a list of strings), whose contracts are trusted:
  - `text.rs`: character-level text operations with their specifications;
  - `sorbet_type.rs`: Sorbet type expressions, parsed and rendered;
  - `cfg_text.rs`, `autogen.rs`, `symbol_table.rs`, `parse_tree.rs`: the
    readers of Sorbet's outputs;
  - `model.rs`: the project model, its class table and its queries;
  - `builder.rs`: how the outputs are joined, including branch conditions
    and method locations;
  - `indexer.rs`: the decisions behind running Sorbet and keeping a cache;
  - `report.rs`: the text and JSON forms in which a method is shown.
- `app/` — the `srb-lens` command line: JSON decoding, files, processes and
  printing around the library.
- `tests/` — tests of the library on concrete inputs.
