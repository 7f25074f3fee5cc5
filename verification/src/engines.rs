//! The operator-fabric engines: lanes and residue states, Pisano and
//! Ramanujan helpers, and the calendar engines built on them.

pub mod lane;
pub mod pisano;
pub mod ramanujan;
pub mod vigesimal;
pub mod long_count;
pub mod tzolkin;
pub mod dresden_eclipse;
pub mod venus_table;
pub mod fabric;
pub mod recombinant;
