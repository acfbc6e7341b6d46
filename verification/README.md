# kosei

Regex-based environment switcher for any config file. Named environments in
`kosei.yaml` list replacement rules (files, a `/pattern/flags` regex literal
and a replacement value); `kosei switch <env>` applies them, `--dry-run`
previews the changes as a line diff.

## Layout

- `src/` — the library, verified with Verus:
  - `config/regex.rs`: parsing `/pattern/flags` literals, reading flags,
    compiling regexes;
  - `config/compiled_regex.rs`: the compiled regex, kept with the pattern and
    modes it was built from, and the calls into the `regex` crate;
  - `config/loader.rs`: the configuration model, its validation, the upward
    search for the configuration file, environment lookup;
  - `replacer/engine.rs`: applying one replacement to a text;
  - `replacer/diff.rs`: the removed and added lines of a change (through
    `similar`);
  - `commands/switch.rs`: the switch as a state machine that asks for file
    checks, reads, writes and diffs and decides on their outcomes; every file
    is read and every replacement computed before the first write, and a dry
    run shows one diff per changed file, from its content to the content all
    its rules give;
  - `commands/init.rs`, `commands/migrate.rs`: the decisions of `init` and
    `migrate`;
  - `error.rs`, `text.rs`: the error type and its messages, text helpers.
- `app/` — the command-line program: argument parsing, file-system work,
  YAML/JSON (de)serialisation and coloured output.
- `tests/` — tests of the library.
