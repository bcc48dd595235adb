# craine

An HTML compiler with components written in plain HTML, as a verified library
(`src/`) and a thin command line program around it (`app/`).

- `src/var_parser.rs`: variable definitions `{name||value}` and their uses `(name)`.
- `src/compose.rs`: the expansion of components in a page, with scoped variables.
- `src/dom.rs`: the HTML tree, its rendering, and parsing through `html_parser`.
- `src/imports.rs`: `import <path>` statements.
- `src/paths.rs`: file names, page/component/asset sorting, output paths.
- `src/workspace.rs`: the workspace layout and its configuration file.
- `app/`: reading the workspace, walking directories, writing the build directory.
