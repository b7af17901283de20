# timelapse

A lossless stream of checkpoints for a working directory: a daemon records the
files as they change, and every recorded state can be shown, compared, restored,
pinned and published as commits.

* `src/` is the library. It decides and computes everything that does not need
  the outside world, and each function carries a contract that Verus proves:
  hashes and Git objects (`hash`), stored blobs and trees (`blob`, `tree`, `codec`),
  the layout and configuration of a store (`store`, `document`, `system_config`,
  `git_config`), patterns of paths that are not recorded (`ignore`), identifiers and
  history (`ids`, `journal`), messages and locks
  (`ipc`, `wire`, `locks`), the daemon's decisions (`daemon`), and what each command
  decides and shows (`cmd`). `text`, `order`, `paths`, `format` and `ui` are shared
  by them.
* `app/` is the `tl` program around it: arguments, files, sockets, subprocesses and
  the terminal.
* `tests/` runs the library.

Calls into other crates stand behind small wrappers whose contracts are stated and
not proved; each names the function that it calls.
