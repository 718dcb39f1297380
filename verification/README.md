# waydriver

Drives a Wayland application in a headless compositor for UI tests: it launches the
application, finds its widgets in the accessibility tree by XPath, sends keyboard and
pointer input, takes screenshots and recordings, and captures what the application sends
out.

- `src/` is the library. It takes every decision, from plain values to plain values, and
  its contracts are proved by Verus. What depends on a bus, a process or a clock is written
  as a machine that says what to do next and takes in what became of it.
- `app/` performs those steps: D-Bus, processes, timers and GStreamer pipelines.
- `tests/` runs the library on concrete values.

Modules of the library:

| module | what it holds |
| --- | --- |
| `text`, `error`, `geometry` | strings, errors, rectangles |
| `atspi`, `snapshot`, `cache` | the accessibility tree and its rendering as XML |
| `query`, `selector`, `role` | XPath queries, literals, roles |
| `locator`, `poll`, `scroll` | locators, waits, scrolling into view |
| `keysym`, `input`, `backend` | keys, chords, typing, pointer gestures |
| `gaction`, `gsettings`, `sink` | GTK actions, settings, captured effects |
| `launch`, `lifecycle`, `session` | environments, start and shutdown, session state |
| `capture` | screenshots and recordings |
