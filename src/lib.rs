//! Command interpretation for a small GPIO pin tool: the tokens of a command
//! line are turned into the exact sequence of pin operations to perform, with
//! a verified model of a pin bank on which such a sequence can be run.
pub mod token;
pub mod pins;
pub mod plan;
pub mod bank;
pub mod laws;
