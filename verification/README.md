# htmlmd

Turns noisy HTML into clean Markdown or plain text: cleanup rules, seven
output profiles, custom per-selector rules, reference links, metadata
extraction and safety limits, with a command-line front end for batch jobs.

The library in `src/` is written in Verus; its functions carry contracts that
Verus checks.

- `options`, `profiles`, `validation`, `cli` — the configuration, the profile
  defaults, validation, and how command-line flags override a configuration.
- `pipeline` — parse, check the limits, read the metadata, run the cleanup
  passes, render, finish (`convert`).
- `cleanup`, `rewrite`, `rules`, `language` — the decisions of the cleanup
  passes: headings, images, srcsets, tables, forms, URLs, custom rules, code
  languages.
- `renderer`, `elements`, `handlers`, `list`, `table`, `anchor`,
  `references`, `blocks`, `escape`, `serialize` — the Markdown renderer: which
  handler an element gets and what each handler writes.
- `postprocess`, `convert`, `limits` — the last pass over the Markdown and
  the limits.
- `jobs` — batch jobs: output paths, actions, hashes, decoding, the outcome of
  a run.
- `document`, `regex_support` — the outside crates the library calls
  (`scraper`, `regex`), behind contracts.

`app/` is the `htmlmd` command: argument parsing, configuration files,
reading and writing files, the thread pool.
