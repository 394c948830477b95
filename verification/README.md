# nitrox

The logic of Nitrox's build tool and of two of its userspace programs, written in Verus: each
function states what it returns or changes, and the statement is proved.

- `src/` is the library. It does no input or output. Where the tool alternates between the machine
  and a decision, the library holds the decision: a script of acts, or a function from a state and an
  answer to the next state and the next acts.
- `app/` is the program around it: files, sockets, processes, system calls, drawing.
- `tests/` runs the library on concrete values.

| modules | what they hold |
| --- | --- |
| `text`, `number`, `wire`, `table` | characters, numerals, bytes, and a table kept in order |
| `abi`, `deferrals`, `docs`, `references`, `tables`, `irq`, `lints` | what is read out of the sources and the documents, and whether it agrees |
| `archive`, `image`, `store`, `picture`, `ppm`, `paths`, `machine`, `suites` | what is built, packed and started |
| `qmp`, `pointer`, `watch`, `script` | a guest: its monitor, its pointer, its output, and what is done to it |
| `login`, `interactive`, `terminal`, `input`, `display`, `shots`, `placement`, `transcript`, `bench` | the scenarios, and what they find |
| `symbols`, `dump` | where a guest that stopped answering stands |
| `auth`, `sessions`, `child` | the authentication service and the demo child |

The proof functions whose names begin with `law_` state what holds of several functions together.

What is believed without proof stands in few places, each with a comment that says what is claimed:
`String::push` in `text`, the two sorts in `bench` and `symbols`, the decoding of bytes in `wire`,
the character of a number in `qmp`, letter case in `deferrals` and `docs`, and the PNG codec in
`picture`.
