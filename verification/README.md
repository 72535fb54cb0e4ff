# cosmicbar

A Wayland status bar: the rules it runs by, verified with Verus, and the program
around them.

- `src/` is the library. Each module of the bar is a state that takes events and
  hands back what is to be done, so nothing in it waits, reads a file or asks the
  time. Its contracts say what every function returns or changes, and the `law_`
  proofs say what holds across them.
- `app/` is the program: the surfaces and widgets, the buses, the files and the
  processes. Under the names `cosmicbar-mlq` and `cosmicbar-calendar` it is the
  bar's two helpers.
- `tests/` runs the library.

| modules | what they hold |
| --- | --- |
| `text`, `number`, `float`, `paths`, `order`, `reading` | strings, decimals, rounding, paths, sorting, measured quantities |
| `civil`, `moment` | days and times of day |
| `json`, `dbus` | values that come in and go out, and how they are read |
| `config`, `control`, `bar`, `surface`, `glyph` | the bar itself: layout, commands, popups, the pointer |
| `extension`, `mlq` | programs that draw a module, and the job queue's one |
| `calendar` | what the calendar helper follows, lists and tells |
| `modules` | one file or directory for each module of the bar |

What an outside crate returns is taken on trust in a few places. Each is marked
`external_body` or `assume_specification`, beside a sentence that says what is
claimed of it.
