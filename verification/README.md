# study-time

A study timer for the terminal. While a session runs, distracting sites are blocked, by packet
filter rules on Linux and by entries in the hosts file elsewhere. The time of every session is kept,
in total and by day.

- `src/` holds the rules, verified with Verus: the timer (`session`), the study time (`progress`,
  `day`), the two ways to block (`iptables`, `hosts`), settings and their places (`config`,
  `paths`), the screen (`screen`, `clock`), the keys (`input`), and texts (`text`). What holds of
  several steps together stands in the modules whose names end in `laws`.
- `app/` is the program: files, commands, name lookups, the keyboard and drawing.
- `tests/` runs the library.
