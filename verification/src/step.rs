//! Step definitions: patterns, their locations, and the registry that
//! resolves a step's text to exactly one handler.

pub mod builder;
pub mod collection;
pub mod context;
pub mod error;
pub mod location;
pub mod order;
pub mod pattern;

pub use self::builder::{compose_step_builders, StepBuilder};
pub use self::collection::Collection;
pub use self::context::{Context, LineCol, Span, Step, StepType, Table};
pub use self::error::AmbiguousMatchError;
pub use self::location::Location;
pub use self::pattern::{Pattern, PatternError};
