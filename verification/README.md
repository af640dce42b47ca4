# Boop Detach

Boop detaches a program from its terminal so that one or more terminals can attach to it later.

| Command | Effect |
| --- | --- |
| `boop` | Start a shell in session `boop`, attach to the only session, or list sessions |
| `boop COMMAND [ARG...]` | Run a command in session `boop` |
| `boop --session NAME [COMMAND...]` | Attach to session `NAME`, or start it |
| `boop --name NAME` | Attach to session `NAME` |
| `boop --disconnect NAME` | Detach every terminal from session `NAME` |
| `boop --disconnect` | Detach every terminal from the current session |
| `boop --list` | List sessions |
| `boop --status` | Print the current session name; fail outside a session |

Press Ctrl-\ to detach, or run `boop --disconnect` inside the session.
`--detach-key ^X` or `BOOP_DETACH_KEY=^X` selects another key.

A session ends when its command exits; `boop` then exits with the command's status.
Programs in a session see `BOOP_SESSION` set to the session name.

## Layout

`src/` is a library, verified with Verus, that holds what Boop decides and computes. It does
no input or output: it is told what has happened and says what to do next.

| Module | Subject |
| --- | --- |
| `cli` | The command line, session names and detach keys |
| `client` | What `boop` does up to the point where a terminal is attached |
| `relay` | What goes on between a terminal and its session |
| `launch` | How the daemon of a session is started |
| `server` | The daemon: its terminals, its program and its end |
| `protocol` | The messages between the two |
| `modes` | The terminal modes that a program has set |
| `sessions` | Where the sockets of sessions are, and which sessions there are |
| `sys` | What calls to the operating system come back with |
| `text` | Numbers and bytes as text |

The modules whose names end in `_laws` state and prove what holds of several functions
together, or over time.

`app/` is the program itself: it makes the calls to the operating system.
