# tacview_stats

Flight statistics from Tacview ACMI recordings: which whitelisted pilots flew
which aircraft, for how long, and which weapons were launched next to them.

- `src/` is the verified library.
  - `text.rs`: character classes and maximal runs, substring search, the
    syntax that `i32::from_str_radix(_, 16)` and `str::parse::<f32>()` accept,
    and the `{:x}` form of ids, with the lemmas tying them together.
  - `acmi.rs`: the line shapes (object creation, pilot creation, object id,
    telemetry) as greedy, start-anchored matchers with exact contracts.
  - `models/`: pilots, positions, weapon counts and the state of a reading.
  - `processing.rs`: `GameState::process_line`, whose contract is the
    specification `line_effect` of what one line does, the weapon counter, the
    end of a reading, and the laws of a step.
- `app/` is the program around it: folders, zip archives, reading lines,
  the floating-point distance check for weapon launches, aggregation over
  files, and the database initialisation.
- `tests/` check the library, including its matchers against the `regex`
  crate and its number syntax against `std`'s parsers.
