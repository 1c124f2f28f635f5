# launcher_core

The core of a keyboard-driven application launcher, written in Verus: what
the launcher decides is stated in `requires`/`ensures` contracts and proved.

## Layout

- `src/` — the verified library.
  - `tags` — hierarchical tags (`audio/effects/reverb`), the tag registry
    with aliases, colors and icons, and tag sets.
  - `filter`, `favorites`, `userdata`, `history` — the user's stores: tag
    filters and presets, magic words, favorites, ratings, notes, hidden
    items, user tags, variant groups, first-seen times and usage history.
  - `query` — turning a raw query into a plan (magic word, inline `#tag`,
    provider prefix, exact mode) and the steps results go through.
  - `matching` — exact (substring) matching of a query in search fields,
    and nucleo's fuzzy matches field by field.
  - `calc` — the calculator's tokenizer and precedence parser.
  - `desktop`, `actions`, `pack`, `extension`, `demo`, `icons` — the
    providers' logic: `.desktop` entries, workflow and extension commands,
    packs, extension manifests and preferences, icon lookup paths.
  - `launcher`, `ui`, `sidebar`, `theme`, `config` — the launcher window's
    decisions: keys, clicks, selection, chips, sidebar tree, quick tag,
    display items, stylesheet and configuration defaults.
  - `laws` — properties that span operations, proved over the same spec
    functions the contracts use.
  - `text`, `keyed` — strings, paths and an ordered key-value store.
- `tests/` — tests that run the library.
- `app/` — the program around the library: environment, files (JSON, TOML,
  Styx), processes, floating-point scoring and evaluation, and a line-based
  front end.
