# adrs-core

A library for Architecture Decision Records: parsing adr-tools (Nygard) and
MADR documents, rendering new records from templates, keeping a repository of
records (create, supersede, link, change status, update metadata in place),
linting and health checks, JSON-ADR export and import, and layered
configuration.

## Layout

- `src/` is the library, verified with Verus. Every operation states what it
  returns over mathematical views of the records (`AdrV`, `RepositoryV`,
  `ConfigV`, ...). Calls into other crates (regex, minijinja, pulldown-cmark,
  time, globset, fuzzy-matcher, the mdbook-lint ADR rules) go through small
  `external_body` functions whose contracts say what each call gives. Proof
  functions named `law_*` state properties that span operations, such as what `get`
  returns after `set_status`, that linking is bidirectional, that metadata
  updates keep the rest of a file, that saved configuration reads back, and
  that sorting a lint report orders it and keeps every issue.
- `app/` is the filesystem, environment and serialization front end: it reads
  directories, configuration files, environment variables and gitconfig
  sections into the library's values, decodes YAML frontmatter and JSON-ADR,
  and writes back the files the library produced.
- `tests/` exercises the library on concrete values.
