//! Shape inference and shader generation for ONNX graphs.
pub use vstd::hash_map::StringHashMap;

pub mod arith;
pub mod compiler;
pub mod constants;
pub mod dynamic;
pub mod error;
pub mod forward;
pub mod onnx;
pub mod shape;
pub mod shape_inference;
pub mod text;
