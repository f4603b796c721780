//! Enum based state machines: the states of a machine, the moves between
//! them and the accessors of their fields, each read from the tokens of a
//! macro input and expanded into Rust source text.
//!
//! * `machine` reads an enum whose variants are the states and generates the
//!   machine enum (with an added `Error` state), a struct per state and a
//!   constructor per state;
//! * `transitions` reads moves `(State, Message) => End` and generates the
//!   enum of the messages and, per message, a method on the machine enum
//!   that sends every state without a move on it to `Error`, along with the
//!   graph of the moves in the dot language;
//! * `methods` reads accessors and methods of states and generates them on
//!   the states' structs, with wrappers on the machine enum.
pub mod error;
pub mod expansion;
pub mod grammar;
pub mod states;
pub mod methods;
pub mod text;
pub mod tokens;
pub mod transitions;

pub use error::{ErrorKind, ParseError};
pub use expansion::Expansion;
pub use states::machine;
pub use methods::methods;
pub use tokens::{Delimiter, TokenTree};
pub use transitions::{transitions, Transition, Transitions};

