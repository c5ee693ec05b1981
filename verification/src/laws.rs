//! What holds of every tree: laws that relate the operations to each
//! other, proved over the model.

pub mod focus;
pub mod names;
pub mod sizes;
