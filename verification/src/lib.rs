use vstd::prelude::*;

pub mod config;
pub mod hardware;
pub mod keyboard;
pub mod laws;
pub mod registers;
pub mod semantics;
pub mod utils;
pub mod vm;

verus! {
} // verus!
