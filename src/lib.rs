//! Parser for a space-delimited click log: each line is one visit, with a
//! timestamp, the article shown, a click flag, the user's sparse features and
//! the sparse features of every candidate article. The sparse lists become
//! fixed-length dense vectors, and the visit is assembled as a record.

pub mod error;
pub mod token;
pub mod grammar;
pub mod dense;
pub mod visit;

pub use error::{ErrorKind, ParseError};
pub use token::Decimal;
pub use grammar::{ArticleBlock, IndexedValue, LineParts};
pub use dense::DenseVector;
pub use visit::{ArticleContext, Visit};
