//! What the views show, as values: the painting is left to the caller.

pub mod layout;
