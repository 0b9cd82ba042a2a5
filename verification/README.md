# cinder_core

The rules engine of a story game, written in Verus: the world state, the
content pack that describes rooms, actors, items, stages and menus, and the
reducers that move the world from one turn to the next. Every function in
`src/` carries a contract that Verus proves.

## Layout

- `src/text.rs`, `src/smap.rs`, `src/variable_store.rs`: strings as character
  sequences, string-keyed maps and sets with a sorted key list, and the story
  variable store with its declared scopes.
- `src/content.rs`: the content pack and its well-formedness.
- `src/state/`: the world state and its operations (inventory, stats,
  relationships, party orders, conversations, scripted sequences, the clock,
  act series and appointments), each with its frame.
- `src/reducer/`: stage advancement on signals (`beat_advance.rs`), room
  observation, movement and the walk of followers, feedback messages,
  summaries, surround rules, actor commands, experience and level growth
  (`combat.rs`), and the player's attacks, defeats with their drops, and
  hostile strikes (`attacks.rs`).
- `src/panels.rs`, `src/closure.rs`, `src/stage_assignment.rs`: the side
  panels, the closing card of an act, and the choice of the next stage from
  scores handed in from outside.
- `src/runtime.rs`, `src/runtime/`: the runtime that holds content, world and
  cached closing cards, with its menu and room-view operations.
- `src/chance.rs`: the one draw of a random number (the start room).
- `app/`: the host side: the serialisable copies of the library's types
  that the user interface exchanges as JSON, and the turn drivers that check
  a call's preconditions and run the outside menu generator.
- `tests/`: the tests, run against the compiled library.

Laws that relate several operations are stated as public proof functions
named `law_*`, next to the operations they speak of.
