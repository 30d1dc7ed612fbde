# coder

`coder` is a detachable wrapper for `codex`. A background broker owns the pseudo-terminal in which
`codex` runs; foreground clients attach to the broker, detach with `Ctrl+]`, and leave `codex`
running.

The library in `src/` decides what is done, and Verus proves that it decides as its contracts say.
The program in `app/` does the input and output: it reads, asks the library, and acts.

| Module       | What it decides                                                              |
|--------------|------------------------------------------------------------------------------|
| `text`       | text comparison, decimal and hexadecimal numbers                             |
| `escape`     | where escape sequences end, which are queries, and their parameters          |
| `terminal`   | the size of the terminal, its cursor, and its answers to queries             |
| `shared`     | clients, their queues, the most recent output, the input that waits          |
| `output`     | what of the program's output is shown, answered or held back                 |
| `frame`      | the frames between a client and the broker                                   |
| `foreground` | what a client writes to its terminal, and when it ends                       |
| `keys`       | the bytes for a key                                                          |
| `input`      | what a client sends, and when it detaches                                    |
| `args`       | options, commands and targets in the arguments                               |
| `session`    | session names, the files of a session and what they hold                     |
| `broker`     | requests, exits, restarts after running out of memory, the end of the broker |
| `launch`     | attaching, starting a broker or running directly; which program codex is     |

Proof functions whose names begin with `law_` state what holds across functions. A few functions of
the standard library are trusted: `String::push`, `Hash::hash` for text and for an invocation, and
the reading of the clock. Each is declared where it is used, with what is claimed of it.
