//! A first-in-first-out queue kept in two growable buffers, together with a
//! few small value types.

pub mod broom;
pub mod extrema;
pub mod grayscale;
pub mod queue;
pub mod trace;
