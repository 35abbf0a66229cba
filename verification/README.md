# Spardame

Hearts and the Norwegian Spardame for the Linux desktop: four players, the
human against three computer seats. Spardame scores the queen of spades
100, the ace of hearts 20, the other hearts 10 and the jack of diamonds
−100, played to 500; Hearts scores hearts 1 and the queen 13, played to 100.

The game logic is a library verified with Verus:

- `src/cards.rs` — cards, the deck, the shuffling generator, hand order.
- `src/engine.rs` — dealing, passing, legal moves, tricks, scoring, the end
  of the game, with the laws the rules keep (every card stays in play, the
  highest card of the led suit takes the trick, a hand hands out all its
  points, the lowest total wins).
- `src/ai.rs` — the computer seats' ratings and choices.
- `src/storage.rs` — the plain form of a save and how it is read back.
- `src/app.rs` — the application state between screens.
- `src/status.rs`, `src/i18n.rs` — the texts shown, in English and Norwegian.
- `src/face.rs` — where the pips stand on a card's face.

`app/` is the program around it: the GTK window, the JSON save file and the
random noise in the computer players' ratings.
