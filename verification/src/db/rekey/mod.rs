//! Online rekey: moving the store and its segments from one master-key epoch to
//! the next, so that an interruption at any point can be resumed.

pub mod intent;
pub mod keyring;
pub mod recovery;
pub mod segments;
pub mod stages;
