//! A translator from the stack-based VM language to symbolic Hack assembly,
//! and an assembler from symbolic Hack assembly to 16-bit binary words.
use vstd::prelude::*;

pub mod text;
pub mod command;
pub mod code;
pub mod driver;
pub mod laws;
pub mod hack;
pub mod symbols;

verus! {

} // verus!
