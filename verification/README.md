# wintermute_platform

The core of the wintermute fleet's supervisor and tools, verified with Verus.
`wmd-init` starts the children and restarts them, `wm` talks to it and looks at
an installation, `wintermute-watchdog` recovers failed systemd units.

## Layout

- `src/` is the library. It never touches the host: files, commands and the
  clock are handed in, and each contract says what is done with the answers.
  - Supervisor: `supervisor`, `passes`, `pass_laws`, `restart`, `escalation`, `spawn`,
    `protocol`, `fleet`, `logs`, `env_config`.
  - Watchdog: `watchdog`, `watchdog_laws`, `systemctl`, `commands`.
  - Looking at an installation: `doctor`, `doctor_laws`, `ready`, `calendar`.
  - Planning one: `kiosk`, `install_convention`, `convention_laws`, `line_laws`.
  - Command lines: `cli`.
  - Text, numbers and maps: `text`, `number`, `order`, `string_map`, `files`,
    `clock`.
- `tests/` runs the library on concrete values.
- `app/` holds the three programs around the library: argument handling, the
  control socket, processes and JSON.

## What is not proved

Two functions of the standard library are taken at their word: `String::push`
(in `text`) and `{:?}` on a string (in `spawn`). Public proof functions whose
names begin with `law_` state what holds of the library as a whole.
