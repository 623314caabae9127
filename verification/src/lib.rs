//! Simulation of a liquid container whose contents are encoded as a 15-bit
//! value, together with an exhaustive breadth-first search that finds, for
//! every reachable state, a shortest sequence of actions producing it from
//! plain water (the all-zero state).

pub mod bits;
pub mod fungal;
pub mod liquid;
pub mod solver;

pub use bits::first_clear;
pub use bits::first_set;
pub use fungal::FungalAutomaton;
pub use liquid::LiquidData;
pub use liquid::PotionIngredient;
pub use solver::all_actions;
pub use solver::format_actions;
pub use solver::run_search;
pub use solver::Action;
pub use solver::SolutionTable;
