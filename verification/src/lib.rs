//! A generator for the Ninja build-description syntax.
//!
//! The crate builds passive entity values (`Rule`, `Build`, `Variable`) and
//! feeds them to a `Writer`, which appends properly escaped and width-wrapped
//! text to an in-memory buffer. Every emission function carries a contract
//! that pins the emitted text down to the character.

pub mod entities;
pub mod escape;
pub mod text;
pub mod wrap;
pub mod writer;

pub use entities::Build;
pub use entities::Rule;
pub use entities::Variable;
pub use escape::escape_path;
pub use writer::Writer;
