//! A graphical terminal session engine: the cell grid behind the screen, the
//! encoding of window input as the bytes a shell expects, and the
//! decisions of the loop that ties the two to a pseudo-terminal.

pub mod before_exec;
pub mod block;
pub mod color;
pub mod config;
pub mod console;
pub mod event;
pub mod framing;
pub mod geometry;
pub mod grid;
pub mod interpreter;
pub mod keys;
pub mod pty;
pub mod region;
pub mod screen;
pub mod session;
pub mod surface;
