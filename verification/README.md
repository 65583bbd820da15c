# Knowledge Builder

The logic of a daemon that turns documents dropped into an Obsidian vault into notes:
what may be written where, what an agent's command is answered, which links lead
nowhere, in which order the daemon starts and stops. The library is written in Verus:
its functions state what they return, and the statements are proved. Where a result rests
on the machine (its time zone, the day) the function states what holds of every outcome;
which paths a set of globs matches is left to the crate that matches them.

* `src/` is the library. Each module holds one subject: `paths`, `config` and
  `secrets` (where things are), `plan`, `obsidian`, `driver` and `indexer` (one run of
  the agent), `pattern`, `code_stash`, `link_sweeper` (links in notes), `daemon`,
  `ops`, `client` and `json_object` (the wire), `backup` and the reports of the command
  line. The `*_laws` modules,
  `edits` and `relink_edits` prove what holds of whole texts: restoring links twice is
  restoring them once, code is never touched, and restoring undoes sweeping.
* What the library has from other crates (regular expressions, JSON, times, globs)
  goes through a few functions marked as trusted, each with a comment that says what
  is claimed of the crate.
* `app/` is the program around it: arguments, files, the database, the network and the
  processes that it starts.
* `tests/` runs the library on concrete values.
