# Availability distribution

A relay chain node keeps the data of candidate blocks available: the data is cut
into erasure chunks, one for each validator, and the chunks are gossiped between
the nodes. This crate is the protocol behind that, written and proved with Verus.

The protocol is a state machine that does no input or output itself. It hands
out an action, such as asking the runtime for the availability cores or sending
bytes to peers, and goes on with the reply.

- `src/` is the verified library. `subsystem::transition` says what one step
  does; `our_view`, `peer_view` and `incoming` hold the three parts of the
  protocol; `laws` holds what is proved of it as a whole. SCALE coding and the
  BLAKE2b hash come from outside crates; `message` says what is trusted of them.
- `app/` runs the state machine against an overseer: it performs the actions
  and asks the keystore which validator keys this node holds.
- `tests/` runs the protocol on concrete values.
