# Commitor

Commitor finds unrelated changes bundled into one commit and plans how to split
them. This crate holds its logic as verified Rust: every function under `src/`
states in its contract what it returns, and Verus proves it.

Believed without proof are the contracts of seven small functions that call other
crates or the standard library, and that of `String::push`:

| Item | What it calls |
|---|---|
| `text_from_bytes` (`bytes.rs`) | `String::from_utf8_lossy` |
| `to_lowercase` (`letters.rs`) | `str::to_lowercase` |
| `json_member`, `json_text` (`json.rs`) | `serde_json` |
| `nanos_now`, `now_iso` (`engine/history.rs`) | `chrono` |
| `compare_versions` (`engine/update.rs`) | `semver` |

## Layout

| Path | What it holds |
|---|---|
| `src/text.rs`, `pieces.rs`, `number.rs`, `letters.rs`, `bytes.rs`, `order.rs`, `style.rs`, `json.rs` | texts, lines, numbers, sorted lists, terminal styles, JSON |
| `src/engine/hunks.rs`, `plan.rs`, `coverage.rs`, `staging.rs` | diffs, commit plans, the check that a plan covers a diff exactly once, and what its patches stage |
| `src/engine/` (rest) | git calls, session log, releases, grouping, model replies |
| `src/heuristics.rs`, `src/analysis/` | the local verdict, the collected diff, requests and replies |
| `src/commit/` | offline plans, proposals, branch names, and the run of `commitor commit` |
| `src/scan.rs`, `revert.rs`, `changelog.rs` | the other commands |
| `src/auth.rs`, `login.rs`, `admin.rs`, `config.rs`, `cli.rs` | accounts, the login, settings, the update notice |
| `tests/` | tests on concrete values |
| `app/` | the program: arguments, files, processes and the network |

Commands that alternate between decisions and outside work are state machines:
a state names the action it waits for, and a function takes the outcome to the
next state and to what is printed. `app/` performs the actions.

Proof functions named `lemma_..` that are public state what holds of the library
as a whole, such as that only plans which cover the diff exactly once are ever
carried out, and that nothing is committed before the user accepts the plan.
