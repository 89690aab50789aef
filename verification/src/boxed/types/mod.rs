//! Concrete box types

pub mod char;
pub mod list;
pub mod num;
pub mod str;
pub mod sym;
pub mod vector;

pub use self::char::Char;
pub use self::list::{List, ListSubtype, Nil, Pair, TopPair};
pub use self::num::{Float, Int};
pub use self::str::Str;
pub use self::sym::Sym;
pub use self::vector::{InlineVector, LargeVector, Repr, TopVector, Vector};
