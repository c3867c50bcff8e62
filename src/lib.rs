//! The atom pipeline of a syntax-tree driven code formatter: leaf collection,
//! capture resolution, expansion, scope resolution and whitespace
//! normalisation, with the laws they obey.
pub mod atom;
pub mod capture;
pub mod collection;
pub mod configuration;
pub mod laws;
pub mod normalise;
pub mod scanner;
pub mod scopes;
pub mod tree;

pub use atom::Atom;
pub use collection::{AtomCollection, FormatterError};
pub use configuration::{ConfigError, Configuration, Language, Serialisation};
pub use tree::{SyntaxNode, SyntaxTree};
