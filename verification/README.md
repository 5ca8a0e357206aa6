# stream-cli

Streaming optimisation toolkit for a Raspberry Pi 4B: GPU firmware settings,
kernel module blacklists, systemd services, mpv and ffmpeg command lines.

- `src/` is the library, written in Verus: every function carries a
  contract that Verus proves, and the `law_*` proof functions state the
  properties that hold across calls (what detection reads back after
  activation, that applying a module selection leaves a blacklist file that
  lists exactly the selection, that the boot-time tweaks are idempotent,
  and others).
- `app/` is the `stream-cli` command itself: argument parsing, files,
  processes and the terminal, around the library.
- `tests/` exercises the library on concrete values.
