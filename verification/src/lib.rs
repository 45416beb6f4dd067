//! Search cuts: short commands typed into the shell's search, answered with results, and
//! activated into translations or assistant answers that are typed into the focused window.
pub mod ai_stuff;
pub mod bus_stuff;
pub mod grammar;
pub mod keyboard;
pub mod searchcuts;
pub mod text;
