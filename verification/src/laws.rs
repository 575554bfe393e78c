//! What holds of the resolver and of the combinators, for every input.

pub mod choice;
pub mod content;
pub mod flat;
pub mod lists;
pub mod nesting;
