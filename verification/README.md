# fuiz

The logic of a live quiz game: a host shows slides with questions, players answer on their own
screens, alone or in teams, and points are given for correct and quick answers.

The library is verified with Verus. Functions state in their contracts what they return or change,
and properties of the game as a whole are stated as proof functions. Where chance, the clock or rules
outside the library decide, a contract says which call gave the result.

## Layout

- `src/` is the library.
  - `game` is the game as a whole; `progress` states how it gets from its start to its end, and
    `keeping` how it is kept and comes back.
  - `fuiz` holds the quiz and its slides: `multiple_choice`, `type_answer`, `order`, and in `common`
    what they share, such as points and phases.
  - `teams` and `formation` form teams; `names` gives names to players and teams.
  - `leaderboard` adds points up; `watcher` knows who takes part, and `session` who can be reached.
  - `hosting` is what a host process decides; `settings` holds the limits on what is played.
  - `id_map`, `random`, `seqs`, `texts` and `time` are what the rest is built on.
- `tests/` runs the library.
- `app/` is ordinary Rust around it: a server, and a worker with durable objects.

The library does nothing on its own. A call returns a list of `Effect`s: messages to send,
connections to close and alarms to hand back. Who can be reached and what time it is are arguments.

## What is believed

A few functions of other crates and of the standard library are called through declarations that
state what they do without proof: random numbers and shuffling, hash maps, the clock and durations,
title case, plurals, trimming, lower case, and the filter for inappropriate names. Each names the
function it stands for.
