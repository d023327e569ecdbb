# byrRadar

byrRadar watches the list of free torrents of a tracker, picks the ones that are most in demand,
makes room for them by removing stale torrents of its own, and hands them to qBittorrent.

- `src/` is the library: reading the tracker's page and the settings, ranking torrents, planning
  downloads and removals, and the state of the monitor. Its contracts are proved by Verus.
- `app/` is the desktop program around it: the window and the tray, the HTTP calls, the files and
  the thread that scans.
- `tests/` runs the library on concrete values.

| Module | What it holds |
| --- | --- |
| `text`, `lines` | text as a row of characters; the lines of the log |
| `natural`, `binary64`, `decimal` | double-precision numbers as bit patterns, and how text becomes one |
| `sorting` | stable orders |
| `models`, `config`, `config_law`, `startup` | the data, the settings and where they come from |
| `byr_client`, `qb_client` | what the tracker and qBittorrent are asked, and what they answer |
| `planner`, `rotation`, `clock` | which torrents are wanted, and which may go |
| `planning`, `runner`, `monitor` | a run from its first look to its report, and what is shown of it |
