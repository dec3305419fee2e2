# alias_manager

A library for managing shell aliases in bash, zsh and fish configuration
files, with its behaviour stated as Verus contracts and proved.

## Layout

- `src/` — the verified library.
  - `alias_parser`, `roundtrip`, `rewrite`: reading alias lines and tags
    comments out of a configuration text, writing them back, and the laws that
    a rewritten text reads back as the intended alias list.
  - `shell_config`, `shell_type`, `paths`: edits on configuration texts
    (single and batch), shell kinds and their configuration paths.
  - `app_settings`, `config_backup`, `user_template_store`, `template`:
    settings and their cache, backup retention, user templates.
  - `update_checker`: release tags, version comparison through `semver`.
  - `commands`: the decisions behind the application's commands.
  - `ui`: the pure parts of the user interface (tokenising configuration
    lines, import previews, filters, messages, translations).
- `tests/` — tests run against the compiled library.
- `app/` — the command-line program: files, the environment, the network,
  file watching and JSON, around the library.
