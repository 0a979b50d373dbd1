# cpu_monitor

Monitors the CPU time of all processes of a host, sorts the processes into groups and reports the
time of each group.

```bash
# 24 hours, a sample every 10 seconds
./cpu_monitor

# 1 hour, a sample every 5 seconds
./cpu_monitor --duration 1 --interval 5

# and send the report to a room
./cpu_monitor --room-id 12345 --webhook-url http://10.10.0.1:9099/send-file-image
```

The report is written to `cpu_report_<timestamp>.json`. On Ctrl+C or `kill` the report holds what
was found until then.

```json
{
  "duration_hours": 24,
  "total_samples": 8640,
  "started_at": "2024-01-01T00:00:00+00:00",
  "finished_at": "2024-01-02T00:00:00+00:00",
  "groups": [
    ["💻 System", 3600.5],
    ["🐋 Docker:containerd", 1200.3],
    ["🦊 Gitlab", 800.0]
  ]
}
```

## Layout

`src/` is the verified library. CPU time is kept exactly, as a fraction of clock ticks.

| Module | What it holds |
|--------|---------------|
| `natural`, `seconds` | numbers of any size, exact seconds |
| `text` | substring search, first lines, command lines |
| `clock` | the wall clock and the tick rate |
| `process` | one process: counters, kind, group name |
| `snapshot`, `reading` | the process table at one moment, and the usage between two |
| `groups` | CPU time by group name, merging, ranking |
| `feed` | what a run asks of its provider and of the clock, and when |
| `monitor` | samples, totals, reports |
| `session` | monitoring over hours, step by step |
| `delivery` | the report's file name and the message that carries it |
| `laws`, `runs` | what holds of the accounts as a whole, and of every run and session |

`app/` is the program around it: arguments, `/proc`, files, the network and signals.
