# battleplan

A project's plan, kept as five YAML data files (battlefronts, campaigns, problems, teams,
releases), and a command that works on it:

- `check` reads the plan and checks that every team, battlefront and release that a record
  names exists;
- `crawl` follows the GitHub issue links that the campaigns track and stores what it learns
  in `_data/gen/crawl.yml`;
- `ponder` reports, for each campaign, the RFC its tracking issue refers to and how long ago
  the issue last changed, in `_data/gen/campaigns.yml`.

## Layout

- `src/` is the library, verified with Verus: reading records from YAML, the reference
  check and the warnings that reading and checking give, the crawl as a state machine (which link to visit next, what was learned), the
  GitHub request addresses and paging, and the campaign reports. Its contracts are stated
  over `Seq`, `Set` and `Map` views of the data.
- `app/` is the command: argument parsing, file and network I/O, and the serialisation of
  the generated files.
- `tests/` runs the library on concrete plans, URLs and texts.
