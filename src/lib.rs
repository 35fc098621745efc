pub mod builder;
pub mod catalog;
pub mod namegen;
mod random;

pub use builder::{BuilderError, Reagent, ReagentBuilder};
pub use catalog::{Canonical, ReagentEffect, ReagentKind, ReagentProperty};
pub use namegen::{lookup_name_fragment, new_name, NameGenError, NameTable, NameTableError};
