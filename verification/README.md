# ttt

A minimalistic time tracker for QubesOS: the qube that has the focus tells
what the time is spent on. A dom0 script reports every focus switch as a
line `<unix time> <qube name>` to an RPC service, which records intervals in
a SQLite database; the command line tool `ttt stats PERIOD` prints the time
spent per group of qubes and per qube.

Layout:

- `src/` is the verified library (Verus): reading switch lines and
  deciding what a switch records (`switch`), the statistics queries and the
  report table (`stats`), the command line and its periods (`period`),
  group statements (`group`), SQL statements as values (`sql`), the data
  directory error (`data_dir`), and character helpers (`text`).
- `app/` holds the programs around it: `cli_main` and `qubes_rpc_main`, which
  read the clock, the arguments, standard input and the database, and print.
- `tests/` runs the library on concrete values.
