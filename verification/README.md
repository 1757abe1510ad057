# QQ Copilot bridge

A bridge between a QQ bot and the agent hosts of a machine: its owner can read,
answer, approve and cancel from a phone what the agents on the machine do.

The library under `src/` holds what the bridge decides. Its functions carry
contracts that Verus proves, but for the few that call other crates.

| Modules | Subject |
| --- | --- |
| `text`, `paths`, `urls`, `json` | strings, paths, addresses and JSON values |
| `security` | redaction, digests, codes, and which tool calls are let through |
| `config`, `targets` | the configuration and the workspaces that can be used |
| `protocol`, `ipc`, `mcp`, `hook` | the messages between the programs of the bridge |
| `qq` | the bot's interface and its gateway connection |
| `store`, `tables`, `soundness`, `migration`, `upkeep` | the tables, what holds of them, how they change over time |
| `codes` | codes and tokens that are drawn until one is free |
| `agents`, `messages` | agent sessions, their approvals and questions, messages in and out |
| `catalog`, `bindings`, `commands`, `events`, `interactions`, `wizard`, `status` | agent hosts and the sessions that are shared with them |
| `laws` | what holds over several operations |

`Database` in `store` is a plain value that holds all tables. Its `wf` says what
holds of them at all times; each operation requires it and keeps it, and `is_sound`
tests it. The time is an argument of every operation that needs it. Where codes are
drawn at random, a function beside takes the codes that were drawn.

Random numbers, digests, regular expressions, percent-encoding and addresses come
from other crates, through small functions whose contracts are trusted. Each says
which function it calls and what is claimed of it.

`app/` holds the programs: it reads and writes SQLite, the configuration file, the
credential store, the named pipe, HTTP and the gateway's socket. `app/service.rs`
reads the owner's commands and words its replies; what they do to the tables is up
to the library.
