# rust_sim_city

A small SimCity-style city builder. The library (`src/`) holds the whole
simulation, verified with Verus; the program (`app/`) reads input, paces the
ticks and draws with macroquad.

- `grid`: tiles, zone kinds, tools and the 64×64 grid.
- `city`: the city, its road-access cache, statistics, demand update and tick.
- `demand`: the RCI demand formulas, as exact fractions in (-1, 1).
- `growth`: how a zone's level moves in a tick, given a random roll.
- `tools`: building with a tool, its costs and refusals, and drag strokes.
- `money`: the display text of an amount of money.
- `laws`: properties that span these functions.

Money is held in cents (a road costs 1000, the starting funds are 500000),
so taxes of 45 cents per level and upkeep of 5 cents per road are exact.
