//! Verified cores of a family of small text-processing utilities.
//!
//! The centrepiece is the fixed-capacity retention window (the structure
//! behind "keep only the last N units" semantics), the offset grammar that
//! selects between streaming and windowed emission, and the stream emitter
//! that drives one source through the selected policy. Around them stand
//! the pure cores of the remaining utilities: numeric argument parsing,
//! line splitting, counting, cutting, grouping, merging and formatting.

pub mod biggen;
pub mod cal;
pub mod cat;
pub mod chars;
pub mod comm;
pub mod cut;
pub mod emit;
pub mod findr;
pub mod fortune;
pub mod grep;
pub mod head;
pub mod lines;
pub mod ls;
pub mod numbers;
pub mod offset;
pub mod uniq;
pub mod wc;
pub mod window;
