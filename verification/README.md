# spider

The card logic of a terminal game of Spider solitaire, verified with Verus.

- `src/cards.rs`: suits, cards and runs of cards; their text codes and the reading of those
  codes back; the splitting of a stack into runs (`Groups`), with the laws that tie them together.
- `src/game.rs`: what a key press does in each input state, and which full suits lie at the
  top of the stacks.
- `src/help.rs`: the key bindings shown in each input state.
- `src/history.rs`: a game state with the stack of actions taken on it, for undo.
- `app/`: the terminal front end and the stored (serde) form of cards.
