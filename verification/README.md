# logsync

A terminal viewer that shows several log files side by side, aligned by
timestamp. The library under `src/` is written in Verus: its functions carry
`requires` / `ensures` contracts that Verus proves.

## Layout

```text
src/
  timestamp.rs       UTC instants; the calls into chrono that parse and print them
  text.rs            character classes and text operations, with their std meaning
  grammar.rs         the timestamp shapes that may open a log line
  selector.rs        the automatic timestamp selector and the selector trait
  logfile.rs         cleaning a log text and grouping its lines into entries
  compare_result.rs  validated, equal-length message and timestamp columns
  alignment.rs       aligning any number of logs by timestamp, and its laws
  compare.rs         the comparison-key trait
  view_state.rs      scroll position and how input moves it
  render.rs          the texts of the timestamp pane and the log panes
  levels.rs          log-level words that the viewer colours
app/main.rs          file reading, the terminal loop and drawing with tui
tests/               tests of the library, run with the real outside crates
```

Run the viewer with two or more log files:

```sh
logsync first.log second.log third.log
```
