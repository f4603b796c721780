# machine

Enum based state machines without the boilerplate. Three macros read a
description and expand it into Rust code:

* `machine!(enum Traffic { Green { count: u8 }, Orange, Red })` gives the
  machine enum (with an `Error` state added first), one struct per state and
  one constructor per state (`Traffic::green(count)`, ..., `Traffic::error()`);
* `transitions!(Traffic, [(Green, Advance) => Orange, (Green, PassCar) => [Green, Orange], ...])`
  gives the enum of the messages and, per message, an `on_<message>` method on
  the machine enum; a state without a move on the message goes to `Error`.
  The graph of the moves is also given in the dot language;
* `methods!(Traffic, [Green => get count: u8, Green => set count: u8, Green, Orange, Red => fn can_pass(&self) -> bool])`
  gives accessors on the states' structs and wrappers on the machine enum
  that answer `None` in the states that lack them.

## Layout

* `src/` is the verified library. It reads the macro inputs as token trees
  (`tokens.rs`, `grammar.rs`) and generates the code as text:
  `states.rs` (`machine`), `transitions.rs` (`transitions`, and the graph),
  `methods.rs` (`methods`). Each reader is proved to follow a grammar written
  as spec functions, and each generator to produce the text that spec
  functions describe; the laws of the generated machines (what a state does
  with a message, one method per message, one impl block per state, one edge
  per end state, ...) are proof functions beside them.
* `app/` holds the procedural side: converting the compiler's tokens, writing
  the copies under `target/` and reporting refused inputs as compile errors.
  The library's errors carry the path of positions of the token where the
  input stopped following its grammar (or of the end of the group where it
  ended too soon), which `app/` turns into that token's span.
* `tests/` runs the macros on the traffic light and on edge cases.
