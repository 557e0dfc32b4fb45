# chess5dtools

Data structures and rules for 5D chess with multiverse time travel, verified with Verus.

- `src/` is the verified library:
  - `piece`, `tile`, `coords`: pieces, squares and 4D coordinates;
  - `bits`, `bitboard`: bitboards of the pieces of a board and their shifts;
  - `board`: a board, its tiles and bitboards;
  - `info`: the timelines of a game, the present and the active player;
  - `game`: `BoardArray`, a grid of boards indexed by timeline and time, and `Game`;
  - `partial_game`: the layers of boards that a tree search stacks on top of a game;
  - `movement`: moves, the boards they lead to, and movesets with their validity;
  - `notation`: moves and movesets written in the game's notation;
  - `moves`: the probable moves of the pieces of a board, and the legality of a moveset;
  - `strategy`, `goal`: combinable filters on moves and on branches of a search;
  - `traversal`: walking back through the history of a board;
  - `gen`: hypercuboids of movesets and their cross sections;
  - `time`: durations, and iterators limited in time;
  - `wdl`, `eval`: win/draw/loss counts and evaluation helpers;
  - `laws`: properties that relate several operations.
- `tests/` exercises the library on concrete positions.
- `app/` renders boards and pieces in colour, checks that moves can be written before writing
  them, and converts durations from the standard library.
