# miners

An idle game in the spirit of Langton's ant: a miner walks a procedurally
generated grid of rock, chips walls down, collects what it finds, crafts drones
that turn expandos into fountains and build a sand castle, and a genetic loop
breeds better miners batch after batch.

`src/` is the game's rule book, verified with Verus: the world grid and its
generation from a seed, the miner's moves, pickups, bumps and drills, the
drones, the fluids, the slot codes, the score trie, the camera that follows
the miner and the choices of the genetic loop after each batch. Every public function
states what it does in its contract; `src/laws.rs` holds the properties that
span several functions.

`app/` is the terminal program around it: command line and keyboard, the
running of the genetic loop, the floating point bookkeeping of energy and cooldowns, and
painting the world.

`tests/` runs the rules on concrete worlds.
