//! Order-preserving integer keys, strain peak bookkeeping, rhythm islands and
//! the other integer-valued parts of osu!standard difficulty calculation.

pub mod osu;
pub mod total_order;
