//! A verified lexical scanner for the Lox scripting language.
//!
//! The scanner turns a source text into the ordered sequence of its tokens,
//! collecting a diagnostic record for each lexical error it meets on the way.
//! The behaviour of the executable scanner is pinned down by a mathematical
//! model of the scan (module `model`), and the laws that hold of every scan
//! are stated and proved in module `laws`.

pub mod errors;
pub mod laws;
pub mod model;
pub mod object;
pub mod scanner;
pub mod token;
pub mod token_type;

pub use errors::LoxError;
pub use object::Object;
pub use scanner::Scanner;
pub use token::Token;
pub use token_type::TokenType;
