//! Lazy adapters for iterators over two-variant results.
//!
//! The crate revolves around one adapter: [`MapOkIter`], obtained through
//! [`MapOk::map_ok`], which applies a transform to every success payload
//! pulled from an inner source of `Result` items while relaying failure
//! payloads untouched.  [`BoxOk::box_ok`] is the specialization whose
//! transform moves each success payload into freshly allocated heap storage.
//!
//! Sources are abstracted by [`ResultIterator`], a pull-based producer of
//! `Result` items with a relational contract on its `next` method; every
//! standard iterator over `Result` items is one, and so are the adapters
//! themselves, which is what lets them be chained.

pub mod box_ok;
pub mod map_ok;
pub mod source;

pub use box_ok::box_value;
pub use box_ok::BoxOk;
pub use box_ok::BoxOkIter;
pub use map_ok::MapOk;
pub use map_ok::MapOkIter;
pub use source::ResultIterator;
pub use source::VecSource;
