# metrix

A terminal dashboard of coding-assistant usage: token use per day and per
model, activity by hour, tool calls, file operations, session records,
conversation sizes and an estimated cost, read from the JSONL session logs
under the user's `projects` folder.

The library under `src/` is verified with Verus; `app/` is the terminal
program around it.

## Layout

```
src/
├── text.rs       character sequences: order, search, decimal rendering
├── assoc.rs      sorted association lists and their map view
├── names.rs      NameMap: map keyed by text, kept sorted
├── days.rs       DayMap: map keyed by day number, kept sorted
├── clock.rs      timestamps and dates as integers (chrono behind wrappers)
├── naming.rs     model pricing keys, price list, path shortening
├── wrap.rs       counters that wrap around like release-build arithmetic
├── data.rs       log lines, metrics, and the spec of aggregation (Tally)
├── aggregate.rs  parse_all: the verified aggregation of log lines
├── ui.rs         dashboard state, scrolling, rankings, records, formatting
├── laws.rs       totals, hours, tokens per day and model, scrolling, paths
├── sessions.rs   per-session turns, time span, files and records
└── calls.rs      tool calls, edits per file, created and edited files
app/
├── main.rs       terminal setup and the event loop
├── logs.rs       finding and reading the log files (serde, glob, dirs)
└── render.rs     the ratatui panels and the floating-point cost estimate
```

## Controls

| Key | Action |
|---|---|
| `←` / `h` | Scroll chart left |
| `→` / `l` | Scroll chart right |
| `Home` | Jump to earliest day |
| `End` | Jump to most recent day |
| `c` | Toggle chart between tokens-per-day and cost-per-day |
| `q` / `Esc` | Quit |
