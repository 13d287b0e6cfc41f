# herdr-strays

Which files strayed from the last commit, across every project that herdr has
open, and what is known about them: their diffs, who wrote what, what was said on
the pull request, what CI thinks, and the notes you make along the way.

Read-only by construction: every git invocation is a query. Anything that writes
is asked of the agent running in the project, typed into its input and never
submitted.

## Layout

- `src/` is the library: the rules of the viewer, verified with Verus. It performs
  no I/O.
- `app/` is the program around it: the terminal, git, `gh`, herdr and the disk.
- `tests/` runs the library on concrete values.

## Configuration

`$XDG_CONFIG_HOME/herdr-strays/config.toml`, or `~/.config/herdr-strays/config.toml`.
Everything is optional; what is absent keeps its default.

```toml
[thresholds]
auto_fold = 25
side_by_side_min_width = 80
tick_ms = 250
debounce_ms = 400
max_commits = 200

[panels]
show_all = false
show_help = false
side_by_side = true

[forge]
enabled = true
interval_secs = 120

[keys]
x = "open-editor"
r = false
```

Keys are single characters, `space`, `enter`, `tab`, `back-tab`, `up`, `down`,
`left`, `right`, `home`, `end`, `page-up`, `page-down`, `backspace`, `delete` and
`insert`, each with `ctrl-` in front of it or without. `false` unbinds a key.

Action names, for the right-hand side:

`quit`, `help`, `refresh`, `select-next`, `select-previous`, `toggle-collapsed`,
`scroll-diff-down`, `scroll-diff-up`, `page-diff-down`, `page-diff-up`,
`scroll-diff-home`, `scroll-diff-end`, `toggle-base`, `toggle-split-diff`,
`toggle-show-all`, `toggle-scope`, `toggle-blame`, `toggle-history`,
`toggle-stashes`, `toggle-branches`, `toggle-graph`, `begin-filter`,
`begin-search`, `search-next`, `search-previous`, `cursor-down`, `cursor-up`,
`begin-annotation`, `remove-annotation`, `send-review`, `open-editor`,
`begin-prompt`, `git-menu`

## For scripts

`--json` prints a report and exits; `--annotations`, `--agents` and `--forge` each
add a section to it.
