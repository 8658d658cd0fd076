# aoe2_pipeline

The data side of an Age of Empires II guide, as a library verified with Verus, plus a thin
command-line program around it.

- `src/refdata/`: reference documents derived from the aoe2techtree game data: civilization
  texts parsed from help strings, unit descriptions, unit and tech names, the icon map, and
  per-unit game facts (age, building, cost, attack bonuses).
- `src/replay/`: recorded games: decoding an action stream into events, narrowing them into
  store rows, per-player facts (age-up clicks, opening, units, watched techs), the coaching
  metrics and findings of the analyzer, and the decisions of the download pipeline (which
  replay file to fetch, the archive fallback, pacing, manifest updates and seeding).
- `src/text.rs`, `src/str_map.rs`, `src/json.rs`: character-sequence helpers, an
  insertion-ordered string-keyed map, and JSON documents as plain values.
- `tests/`: tests that run the compiled library.
- `app/`: the program: argument handling, HTTP, SQLite, files, the replay decoder, and the
  floating-point estimates and benchmark comparisons of the analyzer.

Every function in `src/` carries a contract that Verus checks; the few calls into outside
crates (`serde_json`, `flate2`) and into `std` that Verus has no specification for sit behind
small trusted wrappers whose contracts say what their documentation promises.
