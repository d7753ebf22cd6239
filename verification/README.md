# wdm

A Wayland-native display manager. wdm takes the seat, shows a greeter on it, lets
PAM decide who may log in, and hands the display to the session that was chosen.

## Layout

- `src/` is the library: what wdm decides. Every item of it is verified with
  [Verus](https://github.com/verus-lang/verus); the contracts are stated over
  mathematical models of the values, and what holds of several functions together
  is proved in the functions named `law_...`.
  - `config`, `args`, `users`, `sessions`, `session`: what is configured, who may log
    in, what can be launched and with which environment and privileges.
  - `pamwire`, `pamhelper`, `auth`: the conversation with the process that runs PAM,
    byte by byte and step by step.
  - `login`: what a greeter may ask for and when, and how often a login may be tried.
  - `supervise`, `backend`: the greeter's restarts, and the handing over of the
    display.
  - `comp`, `input`, `udev`, `render`, `errscreen`: outputs, surfaces, input, monitors
    and what wdm draws itself.
  - `text`: strings as sequences of characters.
- `app/` is the program around it: it reads, draws, forks and talks to PAM, the seat
  and the greeter as the library says.
- `tests/` runs the library on concrete values.

## What is taken on trust

Calls out of the library stand behind small functions whose contracts are believed:
the scrubbing of secrets (`zeroize`), the reading of desktop entries
(`freedesktop-desktop-entry`), and a handful of the standard library's string
functions. The documentation of each says what it claims.

Times are nanoseconds on one monotonic clock, except where a name ends in `_ms`.
