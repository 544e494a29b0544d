# Majestic

The core of a modal text editor with a governed agent, written in Rust and verified with Verus.

- `src/` is the library. Its functions carry contracts, and what holds of several functions
  together is stated as a `law_*` proof function next to them.
- `tests/` runs the library on concrete values.
- `app/` is the program around it: files, Git, sockets, HTTP, threads and the performance harness.

## What is where

| Part | Modules |
|---|---|
| Keys | `key`, `keymap`, `dispatch`, `profiles`, `whichkey`, `selector` |
| Text | `text`, `paths`, `document`, `buffer`, `search`, `hashline` |
| Screen | `surface`, `popup`, `completion`, `code_action`, `references`, `symbols`, `hover`, `signature`, `prompt` |
| Editor | `editor`, `decor`, `workspace`, `session`, `diagnostic`, `inlay`, `fold`, `occurrence`, `rename` |
| Project | `files`, `finder`, `fuzzy`, `git`, `git_panel` |
| Documents | `typeset`, `markdown`, `texinfo`, `preview`, `info`, `syntax`, `syntect_hl` |
| Agent | `provider`, `http`, `json`, `agent`, `governor`, `agent_session`, `policy`, `tools` |
| Host | `config`, `daemon`, `bench` |

## Conventions

- The view of a type, `x@`, is what its contracts speak of; a type with a method called `view` has
  `caret()` or `state()` instead.
- Several views share one document, so a document is handed to the methods of a buffer or an editor.
- The library does no input or output but for reading the clock for the audit log. Where it needs
  some, it says what to do, the host does it, and the result is handed back; an agent's provider,
  tools and user stand behind traits.
