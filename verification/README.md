# filewall

Asks the user before an unknown program opens a sensitive file on Linux. The
kernel holds the `open` back until the daemon answers; the daemon goes by the
configuration, by rules learned from earlier answers, and by the user.

`src/` is the library: everything that is decided or computed, with contracts
proved by Verus. `app/` holds the programs around it: system calls, sockets,
files, the dialog and the window. `tests/` run the library from outside.

| Modules of `src/` | What they hold |
|---|---|
| `paths`, `text`, `globs` | paths by their components, text, patterns |
| `rules`, `store` | learned rules, their ids, and how the store is replaced |
| `config`, `policy` | settings, and what they say of an access |
| `access` | one access, from the kernel's event to the answer |
| `fanotify`, `process` | events as the kernel lays them out, and what is shown of a process |
| `scan`, `markset`, `treewatch`, `watcher` | what to mark, what is marked, and what has changed |
| `proto`, `ui_link` | messages and their framing, and the link to the prompt helper |
| `display`, `dialog` | the prompt as a dialog |
| `prompt_view`, `prompt_app`, `worker`, `theme` | the prompt as a window |
| `table`, `ctl`, `commands` | the control program |

One executable holds all programs; the name it is started under (`filewalld`,
`filewall-ui`, `filewall-ui-iced` or `filewallctl`) says which one runs.
