//! Interrupts: the 8259 programmable interrupt controllers and the keyboard's scancode
//! stream. Loading the descriptor table and the handlers themselves are hardware work,
//! done outside this library.
pub mod keyboard;
pub mod pic;
pub mod utils;
pub use pic::Interrupts;
