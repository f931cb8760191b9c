# del

A delete tool with a safety net: paths are packed into a trash before they
disappear, and can be restored at any time.

`src/` is the verified library. Its functions carry contracts that Verus
proves; the few calls into the standard library and into `blake3` that it
makes go through small trusted wrappers (`compress::system_now`,
`since_unix_epoch`, `duration_secs`, `duration_subsec_nanos`, `blake3_digest`, `text::push_char`):

- `ids` — the id-list syntax of `--show`, `--restore` and `--delete`
  (`3`, `2,5,9`, `2-5`, `2~5`, `-5`), with the laws of that syntax;
- `size` — human-readable sizes (`12.34KiB`), computed exactly with integers;
- `paths` — Unix paths read component by component: ancestor test, parent,
  file name, join;
- `config` — defaults, the command line over the configuration, protected
  paths, and the plan of a run;
- `compress` — content-addressed archive names, the record of a packed path,
  and the per-entry decisions of a restore;
- `records` — trash rows, restore directories, and what a clean-up keeps;
- `tui` — entry types, sizes and names of the file browser, and its state:
  what each key press does to it;
- `text` — decimal digits and line endings.

`app/` is the program around it: command-line parsing, configuration loading,
tar and zstd, SQLite, the terminal UI and the file system.
