//! Verified preprocessing logic of an asynchronous MPC protocol: random
//! sharings, random output masks, random shared bits and the multiplication
//! state, over the prime field of the Stark curve.

pub mod context;
pub mod field;
pub mod groups;
pub mod laws;
pub mod mult_state;
pub mod rand_bit;
pub mod rand_mask;
pub mod rand_sh;
