# herocat

A tool that files the games of a Heroic Games Launcher library under
categories taken from IGDB (genres and themes) and writes them into Heroic's
`store/config.json` under `games.customCategories`.

- `src/` is the verified library (Verus): slugs, the category catalog, the
  store of classified games, the merge of Heroic's four library files, the
  JSON document of Heroic's configuration, the category lists written into it,
  and the decisions of the IGDB client.
- `app/` is the command line around it: argument parsing, files, the HTTP
  client and the printing.
- `tests/` exercises the library on concrete values.
