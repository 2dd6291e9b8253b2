# CoordsFinder

CoordsFinder searches for Minecraft coordinates by the texture rotations of the
blocks in a screenshot. This crate is the part of it that decides: it reads the
configuration file, prepares the block filters, cuts the search area into work
items, and chooses what the program says and does. The functions of the library
carry contracts that Verus proves, except for the few calls into clap and std that
stand under "What is trusted": their contracts are taken as given.

## Layout

| Path | What it holds |
| --- | --- |
| `src/text.rs`, `src/number.rs` | Text as a sequence of characters, decimal numbers |
| `src/types.rs` | Types shared by the parser, the filters and the planner |
| `src/config.rs` | Configuration parsing and validation |
| `src/config_laws.rs` | What configuration files guarantee |
| `src/config_order.rs` | Why a leading scan order changes nothing else |
| `src/config_spelling.rs` | Why files that are only written differently load alike |
| `src/netherrack.rs` | The sixteen netherrack models, as rotations of a cube |
| `src/filter.rs` | Direction rotation, 16-way masks, row combining, forced errors |
| `src/filter_laws.rs` | What filter preparation guarantees |
| `src/spiral.rs` | The spiral order of a tile grid |
| `src/scan.rs` | Linear, spiral and reverse-spiral tile planning |
| `src/coverage.rs` | Why every candidate belongs to exactly one work item |
| `src/options.rs` | The command line |
| `src/program.rs` | Messages, backend selection, exit codes |
| `app/` | The program around the library: files, terminal, interrupts |
| `tests/` | Tests on concrete values |

## What is trusted

- `String::push` appends its character.
- `char::to_lowercase` maps ASCII letters as usual; other characters are named,
  not described.
- clap holds the arguments that are added to a command, and reads the command line:
  the values that it finds are named, and every value that it hands out has passed
  the value parser of its argument. The texts of its errors are not described.

The program in `app/` has no scanner of its own. It checks and plans searches; a
build that can scan implements `Backends` and `Scanner` of `app/scanner.rs`.
