# walkman

Walkman runs YAML-described integration tests against an operating system
booted under QEMU: it waits for the boot texts, then types shell commands on
the serial console and checks the output of each.

## Layout

- `src/` – the verified library.
  - `config.rs` – a scenario: boot texts, prompt, commands and their expected texts.
  - `engine.rs` – the run of a scenario as a machine: it plans the
    interactions, names the next one, and answers each outcome with the
    events for the reporter; error texts are cleaned for display.
  - `traits.rs` – the `Reporter` and `Runner` traits and the terminal
    operations that a reporter emits.
  - `reporter.rs` – flat console output.
  - `reporter/tui.rs` – the screen that is redrawn in place at every event.
  - `suite.rs` – which files of a directory are scenarios, and whether a
    suite passed.
  - `text.rs` – replacing, suffixes, decimal notation, newline counts.
- `app/` – the program: command line, YAML files, the QEMU process and the
  terminal.
- `tests/` – tests of the library.
