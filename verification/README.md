# mixed

A terminal music player: a library tree built from a music directory, a play queue with
shuffle and repeat, synced (LRC and word-by-word) lyrics, fuzzy search, mouse and keyboard
control, desktop (MPRIS) and phone (Termux) media controls.

The decisions of the player are a library verified with Verus; the program around it does
the terminal, the audio, the files and the D-Bus service.

## Layout

- `src/` — the verified library (`mixed`):
  - `playlist` — the queue, its play order (shuffle is a proved permutation), navigation,
    removal and reordering, the grouped queue view;
  - `enqueue` — adding and removing library selections, album ordering;
  - `events` — key and mouse input as a function from view state and event to the new
    view state and the actions asked of the application;
  - `library` — the library tree built from a directory walk, its flattened rows;
  - `lyrics`, `metadata` — the LRC tokenizer and parser, tag metadata and titles;
  - `search` — fuzzy ranking of library rows;
  - `media` — the state published to the media controls and the commands they send;
  - `player` — the playback state machine, seek targets, reply framing for mpv;
  - `ring` — the sample ring buffer of the visualizer;
  - `ui`, `text`, `sanitizer`, `paths`, `cli`, `config` — layout arithmetic, string
    helpers, title clean-up, paths, the command line, settings and sessions.
- `app/` — the program: terminal drawing (ratatui), the event loop, the mpv player thread,
  the spectrum analyser, tag reading (lofty), caches and settings files, MPRIS (zbus).
- `tests/` — tests of the library.
