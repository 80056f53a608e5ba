# ocli

`ocli` keeps engineering tickets as markdown notes in an Obsidian vault and
works on them from the terminal: it names the note after the git branch,
creates it from the vault's template, edits frontmatter fields and note
sections surgically, and lists the notes of the current repository.

The logic is written in Verus and proved against its contracts.

## Layout

- `src/` — the verified library.
  - `text` — character-level helpers over `str`/`String` with exact
    specifications (trim, search, comparison, appending).
  - `markdown` — the one-pass note parser: frontmatter, `##`/`###`
    sections and the `<!-- ocli:footer -->` marker, as ranges over the
    unchanged text.
  - `frontmatter` — the inner YAML of the frontmatter block, field
    regions, surgical set/append of a field, the closest-key suggestion.
  - `ftypes` — declared field types, coercion of command-line values,
    YAML emission of a field and its human form.
  - `section` — finding a section by heading and appending an entry to it
    without writing past the footer.
  - `template` — the `{{VALUE:..}}`/`{{DATE:..}}` template grammar, the
    layered value map and substitution.
  - `pattern` — a compiled regular expression (the `regex` crate behind
    two trusted wrappers) seen as plain values.
  - `vault` — note names from ticket branches, vault errors.
  - `config` — configuration tables, their validation and the resolution
    of the vault root.
  - `status`, `git`, `note`, `list`, `commands`, `new_note`, `cli`,
    `context` — the ticket vocabulary and the decisions each command makes.
- `tests/` — tests of the library on concrete values.
- `app/` — the program around the library: argument parsing, reading and
  writing files, git discovery, logging.
