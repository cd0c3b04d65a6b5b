//! Building the game data out of the upstream catalog.

pub mod catalog_laws;
pub mod corrections;
pub mod hideout;
pub mod items;
pub mod json;
pub mod literal_laws;
pub mod model;
pub mod objective_laws;
pub mod output;
pub mod parse_ts;
pub mod task_laws;
pub mod tasks;
pub mod upstream;
