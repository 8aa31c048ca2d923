# channel

A bounded single-producer, multi-consumer bus. One writer broadcasts messages,
and every reader receives every message that is sent while it is on the bus, in
order and once.

- `src/` is the library, verified with Verus. `bus` is the writer, `reader` and
  `iter` are the readers, and `inner`, `seat` and `atomic_option` are the state
  that they share. Contracts speak of the `history` of a bus: what was sent, and
  how far each reader has come. `laws` states what holds of a bus as a whole.
  `interleaving` is a model of one seat that several readers access in any order:
  it ties the model to `seat`, and states what holds of it. `queue` and `timing`
  hold the calls into `crossbeam_channel`, `parking_lot_core` and the standard
  library whose contracts are taken on trust.
- `app/` shares a bus between threads: it keeps the shared state behind a lock,
  and parks and unparks threads as the library says.
- `tests/` runs the library.
