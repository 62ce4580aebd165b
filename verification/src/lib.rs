//! Pieces of the Objective-C bindings toolchain, verified: the module file
//! that ties a framework's generated files together, and the readable
//! description of a block object's layout, flags and descriptor.
pub mod text;
pub mod debug_struct;
pub mod block;
pub mod sorted;
pub mod library;
pub mod module_text;
