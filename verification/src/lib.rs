//! A behaviour-driven test engine: a registry that binds step text to
//! handlers by regular expressions, and the scheduling rules under which
//! scenarios run and their results are reported in declaration order.

pub mod event;
pub mod hook;
pub mod runner;
pub mod step;
pub mod tag;
