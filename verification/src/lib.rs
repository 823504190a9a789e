//! Generation of a bit-flag value type from a declarative list of named
//! flag variants. Each variant may carry an explicit numeric discriminant,
//! an expression combining sibling flags with the bitwise operators, or
//! nothing. The resolver evaluates the declarations to concrete values by
//! fixpoint iteration, rejecting cycles, missing references and malformed
//! expressions, and the smallest backing width able to hold the highest
//! bit used is chosen for the resulting flag set.

pub mod expr;
pub mod flagset;
pub mod laws;
pub mod model;
pub mod resolver;
pub mod width;
