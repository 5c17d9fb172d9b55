//! A small verified record store.
//!
//! The library keeps an ordered collection of project records, each
//! identified by a unique `name`, and offers lookup and upsert by name
//! together with a JSON codec for persisting the collection as text.
//! File input and output stay outside the library: callers read the file
//! into a string, hand it to the codec, and write the codec's output back.

pub mod codec;
pub mod laws;
pub mod project;
