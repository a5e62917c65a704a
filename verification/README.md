# ourealis_core

Verified core of a human running-trajectory and sensor-stream simulator.

`src/` is the Verus library: random stream keys and the seeded generator
(`rng`), the counter-based hash and the bitmap layout handed to compute
backends (`gpu`), packed node identifiers, fine-grid moves and the connector
attachment table of the search graph (`graph`), the hard-constraint mask
(`field`), the PRM interface side selection (`prm`), the candidate-route
bookkeeping (`search`), and the discrete parameters of people, motion and
calibration (`person`, `motion`, `eval`).

`app/` holds the floating-point layer around it: uniform and Gaussian draws,
the Box–Muller transform of the counter source, rounding of route geometry onto
the segment-key lattice, and serialisable copies of library enums.

`tests/` exercises the library on concrete values.
