# clawmon

A desktop monitor for coding agents that run in terminals inside WSL. Every
session shows a light: green needs no action, yellow waits for the human, red is
a prompt that has gone unanswered for too long. A red session inside tmux gets
its resume keys sent after a wait, a few times at most. A task list launches
commands into tmux sessions of their own.

## Layout

- `src/` is the library, written in Verus. It starts no process, touches no file
  and draws no window: its functions say what is to be done and take what came
  of it.
  - `engine` is the state machine of a poll, `engine_laws` what holds of it, and
    `poll_laws` what holds from one poll to the next.
  - `tasks` is the task list, `task_laws` what holds of it.
  - `detector` and `wsl` say which programs are started and what their end means.
  - `commands` puts a poll and the user's clicks together.
  - `settings`, `usage`, `notice` and `pet` hold the settings, the plan quota,
    the texts of notifications and receipts, and the desktop pet.
  - `text`, `order` and `model` are the ground they stand on: strings, stable
    ordering, and how values look in contracts.
- `tests/` runs the library on concrete values.
- `app/` is the program around it: processes, files, JSON, windows and the tray.
  It reads `detect.py` and `usage.py`, the scripts that run inside WSL, from the
  directory of the executable.

## Contracts

Each type has a model over mathematical values, and each operation a function on
models that says what it does; the executable functions are proved equal to
them. The laws (`law_...`) are statements about those functions: that a session
never gets the same keys twice for one scan, that red needs a transcript that is
known to belong to the process, that a launch is booked once, that ids never come
back, and the like.
