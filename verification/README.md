# glas

A Git-aware, pipeline-friendly `ls`: it lists files with their Git status, groups
nested changes into per-directory summaries (or flattens them), and prints plain paths
when piped.

## Layout

- `src/` — the library, verified with Verus. It decides what is listed and how each
  line reads, from plain values read elsewhere:
  - `path` — paths as component sequences (join, prefix tests, prefix removal, display);
  - `fs` — entries, directory filtering, Git selectors, the Git context and the overlay
    of Git state onto the listing;
  - `info` — the permission, size, owner and date columns;
  - `options` — the parsed command line and the options derived from it;
  - `output` — shown paths, sorting, the grid, the long table, templates and the whole
    output text;
  - `theme` — ANSI coloring.
  Each public function states its result in its contract; the `lemma_*` proof
  functions state properties of the library as a whole (sorting orders and permutes,
  the Git overlay only annotates, the table is aligned, piped output is raw paths, …).
- `app/` — the `glas` command: argument parsing, reading directories, metadata and the
  Git repository, and writing the output.
- `tests/` — tests of the library on concrete values.
