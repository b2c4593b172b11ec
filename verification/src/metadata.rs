//! What the arena knows of types: the kind of a metadata record, and the
//! value witnesses of a type.

pub mod kind;
pub mod value_witness;
