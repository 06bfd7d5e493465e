//! Object-graph serialization for PDF documents.
//!
//! Producers register structured objects with a [`serialize::SerializerContext`],
//! which hands out references and collects the binary fragments that describe
//! the objects. When the document is complete, the
//! [`chunk_container::ChunkContainer`] numbers every object consecutively and
//! assembles the fragments into one file.
#![allow(unused_imports)]

pub mod catalog;
pub mod chunk_container;
pub mod configure;
pub mod document;
pub mod error;
pub mod font;
pub mod geometry;
pub mod interchange;
pub mod metadata;
pub mod object;
pub mod page;
pub mod pdf;
pub mod reference;
pub mod remap;
pub mod resource;
pub mod serialize;
pub mod signature;
pub mod stream;
pub mod text;
pub mod util;
pub mod xmp;
