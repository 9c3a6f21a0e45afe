# mpc_prep

The preprocessing phase of an asynchronous multi-party computation over the
prime field of the Stark curve (`p = 2^251 + 17 * 2^192 + 1`), as a verified
state machine.

- `src/field.rs`: field elements as plain limbs; arithmetic, inversion, square
  roots, serialization and interpolation at zero call `lambdaworks-math`.
- `src/rand_sh.rs`: starting the sharing instances, collecting their shares,
  and combining the shares of the common subset into random sharings with a
  Vandermonde matrix.
- `src/rand_mask.rs`: random output masks, their public reconstruction, and
  the unmasking of the outputs.
- `src/rand_bit.rs`: random shared bits from inverse square roots.
- `src/mult_state.rs`: the state of the multiplication layers.
- `src/laws.rs`: properties that span several steps.
- `app/lib.rs`: the asynchronous edge: configuration checks, and carrying
  out the actions that each verified step returns. Random field elements are
  drawn in `src/field.rs` (`LargeField::random`, through `lambdaworks-math`
  and `rand`).

Each handler takes the state and an event and returns the actions to carry
out; a step that returns `Err` is one at which the protocol aborts.
