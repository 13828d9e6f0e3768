# blur_autoclicker

The verified core of a Linux auto clicker, written in Verus.

- `src/` — the library, verified by Verus:
  - `script` — input scripts (press, release, sleep, activity checks) and
    `InputSession`, which hands them out one action at a time and releases
    whatever is held when a run is stopped;
  - `cycle` — single and double click cycles;
  - `mouse` — screen rectangles, the monitor and screen caches, button flags
    and the X11 / uinput button events;
  - `keyboard` — key names, key-press sessions and the shift rule;
  - `hotkeys` — hotkey parsing, normalizing, formatting and matching, the
    held-key set, scroll tracking and the listener's edge detection;
  - `system_check` — the warnings of the system check and `/etc/group`
    reading;
  - `sequence_picker` — how the point picker classifies mouse and key
    messages;
  - `text` — the string operations the rest is built on.
- `app/` — the command-line program around it: the X11 and uinput devices,
  threads, sleeping, and the floating-point pointer motion.
- `tests/` — tests of the library.
