# Kuebiko

Kuebiko is a local lab for learning to debug: GDB with its terminal, an IPython kernel and a tutor
side by side in the browser. This crate holds the logic of its server, verified with Verus, and the
server around it.

## Layout

`src/` is the verified library. Its functions take and give plain values; each says in its contract
exactly what it does, over mathematical models of the data.

| Module       | What it does                                                                     |
|--------------|----------------------------------------------------------------------------------|
| `text`       | Texts, numbers in decimal, and UTF-8                                              |
| `fields`     | An ordered map from names to values                                               |
| `json`       | JSON values, read and written by `serde_json`                                     |
| `mi`         | Records of GDB's machine interface                                                |
| `mi_written` | How such records are written, and that they read back                             |
| `mi_reading` | What reading such records depends on                                              |
| `debugger`   | What the machine interface says, and what is asked of it next                     |
| `terminal`   | The debugger's terminal: its replay, its plain text, and writing to it            |
| `kernel`     | The conversation with the bridge to the IPython kernel                            |
| `codex`      | The conversation with the tutor                                                   |
| `journal`    | The journal of a lab, and what a write-up is made from                            |
| `store`      | The labs that can be resumed                                                      |
| `config`     | What a lab needs of the machine                                                   |
| `lab`        | How a lab is started, and how its kernel is replaced                              |
| `server`     | What the server does about its clients, the lab and the tutor                     |
| `protocol`   | The messages between the server and its clients                                   |

Functions whose names begin with `law_` state what holds of the library as a whole.

`app/` is the server itself: processes, terminals, files and sockets. `tests/` runs the library on
concrete values.
