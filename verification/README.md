# btrbk_tui

A terminal interface for restoring Btrfs snapshots created with btrbk, with a
verified core.

`src/` is the core, written in Verus. What the tool reads out of text, decides
and shows is computed there, by functions with contracts that are proved of them.

| module      | what it decides                                                    |
|-------------|--------------------------------------------------------------------|
| `text`      | cutting, comparing and writing text                                |
| `paths`     | joining and comparing Unix paths                                   |
| `timestamp` | the timestamps in snapshot names                                   |
| `snapshots` | which names are snapshots, how they are grouped and labelled       |
| `ssh`       | the backup target in `btrbk.conf`, and how it is queried           |
| `purge`     | which snapshots may go without breaking the incremental chain      |
| `mounts`    | which subvolume is root and which is home                          |
| `restore`   | the steps of a restore, its checks and its rollback                |
| `output`    | what commands print                                                |
| `run`       | watching and cancelling a btrbk run                                |
| `config`    | the settings, where they are kept and who owns them                |
| `keys`      | key codes                                                          |
| `session`   | the state of the interface, the selection and the settings         |
| `jobs`      | what is asked, done and reported for each action                   |
| `canvas`    | drawing that never leaves the screen                               |
| `screens`   | what is drawn where                                                |
| `cli`       | the command line                                                   |

`app/` is the program around it: curses, processes, files, the clock and the
JSON configuration. It performs what the core asks for, one thing after the
other, and reports back.

`tests/` runs the core on concrete values.

## What is proved

Besides the contract of each function, the core states laws as public proof
functions named `law_...`. Among them:

- snapshots are listed newest first by the time in their names, in whatever form
  btrbk wrote it and in whatever order the directory lists them;
- a purge deletes only snapshots no newer than the newest one that the backup
  target also holds, and keeps that one and everything newer; every subvolume keeps a
  snapshot, and one that shares none with the target is left alone; purging again
  deletes nothing, and knowing less of the target never deletes more;
- at every moment of a restore the previous subvolume is in place or under its
  `.BROKEN` name, a failed restore that was rolled back has changed nothing, and
  only the automatic cleanup after a success deletes the previous subvolume;
- unless the settings say not to ask, nothing is rebooted, deleted, created or
  restored before the user has agreed;
- whatever the size of the terminal, nothing is drawn outside it, and the
  selected snapshot is always shown.

## What is trusted

The functions marked `external_body` and the `assume_specification` wrap
functions of chrono and of the standard library. Each says above it what is
believed of the function it calls.
