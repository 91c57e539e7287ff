# typos-lsp

A language server that reports the spelling mistakes that
[typos](https://github.com/crate-ci/typos) finds in source code, with quick fixes
for the suggested corrections and a command that adds a word to the project's
typos configuration.

## Layout

- `src/` is the verified library (Verus):
  - `position.rs`: LSP positions of byte offsets (0-based line, column in UTF-16
    code units of the lossily decoded line), computed incrementally.
  - `ignores.rs`: spans matched by `extend-ignore-re` patterns and whether a typo
    falls in one.
  - `check.rs`: the typos that `typos` finds in a document, without the ignored
    ones, at their positions.
  - `diagnostics.rs`: messages, ranges and data of the published diagnostics.
  - `actions.rs`: quick fixes and the ignore command.
  - `settings.rs`: severity and explicit configuration file from the client's
    initialization options.
  - `documents.rs`: the open documents and their full-text updates.
  - `workspace.rs`: workspace folders, routes from paths to configurations,
    exclusion globs, choice of the configuration file and of the policy.
  - `routing.rs`: the `matchit` router of those routes, the exclusion of files by
    their globs, and the policy chosen for a document from its URI.
  - `config_edit.rs`: adding a word to `[default.extend-words]` of a configuration.
- `app/` is the server itself: the LSP transport, file access, the per-folder
  typos engines, and the conversion between LSP types and the library's types.
- `tests/` runs the library on concrete inputs.
