# kiwi_keymapper

A macOS key mapper: Caps Lock (or another key) becomes a Hyper key, and chords such as
`hyper+t` open apps, send other chords, open URLs or run commands.

The library under `src/` holds the logic, verified with Verus: key and chord parsing and
their canonical text, configuration compilation, the event engine (Hyper taps, dual-role
keys, chord lookup), configuration reload, the cheatsheet worker's state machine, action
feedback, event-tap decisions, launch agent and `launchctl` output handling, shortcut
conflicts, the health report and the tables the CLI prints. Each public function states
its result in its contract; where the result comes from another thread or from a
`ServiceManager` implementation, the contract ties it to what that
answered. The properties that span several calls are stated and proved as public proof
functions named `lemma_*`.

`app/` is the program around it: the command line, file and process I/O, the configuration
watcher, the macOS event tap, notifications and the overlay window. It builds on macOS only.

`tests/` runs the library on concrete inputs.
