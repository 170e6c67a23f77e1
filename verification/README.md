# jiji-hamster-bridge

Bridges [jiji](https://github.com/jiji-wm/jiji) (a Wayland compositor) activity and workspace focus events to [GNOME Hamster](https://projecthamster.org/) time tracking over D-Bus. As you switch activities or named workspaces, the bridge pauses, resumes, and switches the running Hamster fact so it always matches the active desktop context. Hysteresis keeps transient window switches from fragmenting the timesheet: starts are immediate, but stops and returns to the previous context only commit after configurable grace periods.

## Layout

- `src/` is the library, verified with Verus: what the daemon makes of events, rules, facts and deadlines, and which calls it asks for.
  - `events` (with `document`) follows the compositor's event stream, `config` (with `schema`, `source` and `pattern`) reads the rules and resolves a context to one of them, `engine` decides when to start, switch and stop, `resume` (with `markers` and `calendar`) plans what is submitted to Hamster, and `run` ties them together.
  - `config_watch` and `stream` decide when the configuration is read again and how long to wait for the event stream.
  - `text`, `table` and `time` are what the others are built from.
- `app/` is the daemon around it: D-Bus, subprocesses, signals, the file watcher, the clock, and the short wait that gathers bursts of file events.
- `tests/` runs the library.

## Configuration

`~/.config/jiji-hamster-bridge/config.toml` is hot-reloaded on change. An invalid config is rejected with a desktop notification and the previous config stays active. `SIGHUP` forces a reload.

```toml
[defaults]
switch_immediate = true          # tracked→tracked switches act instantly
return_debounce_secs = 60        # flap-back to the previous entity
untracked_grace_secs = 60        # leaving tracked context: grace before stop
entity_tag_key = "entity"        # tag key: "entity: work1"
extra_tags = ["location: home"]  # added to new placeholder facts
placeholder_activity = "placeholder"
placeholder_description = "auto-started by jiji-hamster-bridge — rename me"
resume_lookback_days = 5         # days back to clone a prior fact before a placeholder
mark_continuations = true        # stamp `..` on what is carried over within a day

[activities.work1]
entity = "work1"                 # default: the activity name itself
category = "work1.example"       # hamster category for placeholder facts

[activities."/acme/"]            # regex key: any activity name that contains "acme"
entity = "acme_other"            # and has no exact rule; entity is required
category = "acme-corp.com"

[workspaces.invoicing]           # named workspace: overrides its activity
entity = "work1"

[workspaces.scratch]
track = false                    # untracked even inside a tracked activity
```

## Environment variables

| Variable          | Default        | Description                                      |
|-------------------|----------------|--------------------------------------------------|
| `JIJI_MSG_BIN`    | `jiji`         | Binary used for `jiji msg --json event-stream`   |
| `NOTIFY_SEND_BIN` | `notify-send`  | Binary used for desktop notifications            |
| `RUST_LOG`        | `info`         | Log level                                        |

CLI flag: `--config <path>` overrides the default config location.
