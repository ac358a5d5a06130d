# bakery

A bakery that sells cake by the portion, simulated over a number of days.
The library (`src/`, verified with Verus) holds the logic:

- `tray`: the tray of cakes, with the invariant that every cake holds one to
  six portions and only the front one may be cut; serving an order takes one
  whole cake from the back per six portions and cuts the rest from the front,
  and removes exactly the ordered portions.
- `customers`: customers with a random order and the regular and priority
  queues.
- `worker`: which queue a worker serves first, and serving one customer.
- `stats`: the figures of each day and of the whole run.
- `ledger`, `prototype`: the day ledger and the first form of the simulation.
- `random`: the draws made through `rand`.

`app/` runs the simulation: the threads, locks, timers and printing.
