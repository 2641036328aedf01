# cargo_cache

Display information on the cargo cache (`~/.cargo/` or `$CARGO_HOME`), and prune it.

The library under `src/` holds the decisions and the reports of the tool, each with a contract
proved by Verus: the size summaries and their tables, the listings of the largest cache items,
queries, the report on a project's own target directory, the clean-up decisions (`--remove-dir`, `--keep-duplicate-crates`, removal by date,
`trim`, `clean-unref`, `verify`), the step-by-step removal of directory trees, reading dates,
paths and the command line. Laws that span several functions are stated as public proof
functions (their names start with `lemma_`).

`app/` is the program around it: the command line parser, reading the cache on disk, running
`git`, and carrying out the removals the library decides.

`tests/` runs the library on concrete values.
