//! An element-tree style XML library: a tree model, an assembler that builds
//! a tree from reader events, and a serializer that renders it back to text.
pub mod model;
pub mod serialize;
pub mod attrs;
pub mod assemble;
pub mod query;
pub mod builder;
pub mod laws;
pub mod roundtrip;

pub use model::{Element, Document, XmlVersion};
pub use assemble::{Attribute, Event, AssembleError, Assembler};
pub use builder::ElementBuilder;
pub use serialize::WriteError;
