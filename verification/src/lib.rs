pub mod codec;
pub mod text;
pub mod rle;
pub mod cells;
pub mod automata;
pub mod drawing;
pub mod input;
pub mod terminal;
pub mod toggle;
pub mod bytes;
pub mod background;
pub mod bus;
pub mod sexp;
pub mod hub;
pub mod tcg;
pub mod store;
pub mod irish;
pub mod shader;
