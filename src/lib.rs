//! Monte Carlo tallies of rolled character ability scores: per-worker
//! results, their merge, the dice roller and the worker simulation loop.

mod results;
mod roller;
mod worker;

pub use results::{ray_merge, SimulationResults, Tally, CHECK_INTERVAL};
pub use roller::{ability_from_dice, roll_ability, roll_character, DiceStream};
pub use worker::{checkpoint, run, simulate, WorkerRun};
