//! Small generic utilities: a memoizing function wrapper and a two-sided sum type.
mod cacher;
mod either;

pub use cacher::Cacher;
pub use either::Either;
