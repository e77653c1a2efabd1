# Velora

Velora is a plan-driven file downloader. It reads one JSON download plan, fetches the plan's files
concurrently, and writes one JSON object per line to the standard output to tell of its progress.

```
Velora <plan.json>
Velora --plan <plan.json>
Velora --version
```

| Exit code | Meaning |
| --- | --- |
| `0` | All tasks completed successfully |
| `1` | Wrong usage |
| `2` | The plan could not be read or was refused, or the client could not be built |
| `3` | The run is over, and some task failed |
| `130` | Cancelled (Ctrl+C, SIGTERM, a stop line on the input, nobody reads the output) |

## Events

| Event | When |
| --- | --- |
| `version` | On `--version` |
| `start` | The download of a task begins |
| `retry` | An attempt failed, and another follows |
| `summary` | Once a second, when a file is put in its place, and at the end: what is counted, the speed, the time to go |
| `warning` | Something that does not stop the run |
| `completed` | All tasks of the plan have finished |
| `error` | A task failed, the plan was refused, or the client could not be built |
| `cancelled` | The run was called off |

## Layout

- `src/` holds the decisions and is verified with [Verus](https://github.com/verus-lang/verus): contracts state
  what each function returns, and proof functions state what holds of the whole.
- `app/` does the input and output: files, requests, signals, waiting. It joins a task's path to the plan's
  `output_dir` by the rules of the system it runs on.
- `tests/` runs the library on concrete values.

| Module | What it holds |
| --- | --- |
| `models` | Plans and tasks: filling gaps, refusing incomplete plans |
| `headers` | Which headers are sent; a task's headers win over the plan's |
| `client` | The protocol and the settings of the client |
| `attempt` | One attempt to fetch a file, as a state machine |
| `task` | One task with its attempts, as a state machine |
| `schedule` | Which task runs when |
| `runner` | A run: counting, and the events that tell of it |
| `responses` | Ranges, lengths, and failures in words |
| `events` | The events and their members |
| `pacing` | Retry delays with backoff and jitter, pauses between files |
| `speed` | The speed of the transfers, and the limit on it |
| `progress`, `format` | Percentages, estimates, sizes and speeds as text |
| `binary64` | Binary floating-point arithmetic on bit patterns, rounded to nearest |
| `cli`, `output`, `text` | The command line, the output, and text helpers |

Numbers with a fraction are bit patterns of IEEE 754 binary64 in `src/`. The arithmetic on them is proved to round
to the nearest representable number, ties to even, so it agrees with the machine's.
