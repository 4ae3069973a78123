//! A verified core for a terminal Game-of-Life pipeline: a toroidal grid
//! engine that advances generations, and a bounded relay buffer that
//! decouples frame production from rate-gated display.

pub mod cell;
pub mod holder;
pub mod patterns;
pub mod screen;

pub use cell::render_row;
pub use cell::Cell;
pub use cell::OwnedCells;
pub use holder::Holder;
pub use screen::Screen;
