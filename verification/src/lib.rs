//! Reference-counted object lifetimes for a managed heap.
//!
//! The heap is an arena, [`heap::Heap`], whose objects carry a strong, an
//! unowned and a weak count ([`refcount`]).  What every operation does to
//! it is stated over a mathematical value, [`model::HeapModel`], and what
//! holds over whole runs of operations is proved in [`lifecycle`].  The
//! handles of [`obj`] own one unit of a count each.  [`metadata`] holds
//! the kinds of metadata records and the value witnesses by which values
//! are copied, moved and destroyed without knowledge of their type.
//!
//! Beside these stand the plain value types of the language: static
//! strings ([`string`]), Unicode scalars ([`unicode`]), pointers as
//! addresses ([`ptr`]), class instances and metatypes ([`object`],
//! [`ty`]), and the placement of demangled symbol names ([`sym`]).

pub mod heap;
pub mod lifecycle;
pub mod metadata;
pub mod model;
pub mod obj;
pub mod object;
pub mod primitive;
pub mod ptr;
pub mod refcount;
pub mod string;
pub mod sym;
pub mod sync;
pub mod ty;
pub mod unicode;
