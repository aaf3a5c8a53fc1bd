# wonnx_graph

Shape inference and shader generation for ONNX graphs, written in Verus: every function of the
library is proved to meet its contract. What is taken on trust are the contracts of a few calls
into `core` and `bytemuck`, in `src/text.rs` and `src/constants.rs`.

- `src/onnx.rs`: the parts of a graph that the library reads and writes, and their views.
- `src/shape.rs`: element types, shapes, broadcasting, and the shapes of recorded values.
- `src/forward.rs` and `src/forward/`: the shapes of a node's outputs, operator by operator.
- `src/shape_inference.rs`: the shapes that a graph tells, and inference over all its nodes.
- `src/constants.rs`: raw tensors, and `Constant` nodes that give way to initializers.
- `src/dynamic.rs`: sizes for the dimensions that a graph leaves open.
- `src/compiler.rs` and `src/compiler/shader.rs`: the shader of a node.
- `src/arith.rs`, `src/text.rs`, `src/error.rs`: integers, text and errors.

The `laws.rs` files and the proof functions named `law_..` state what holds of several functions
together, or of every graph.

Where a calculation has no result, because a node refers to something that is not there or a
number is out of range, the specifications are `None`. The functions whose names start with
`checked_` return `None` there; those without require that there is a result.

Floating point numbers are carried by their bits. `app/` holds the conversions, the error types with
`std::error::Error`, and what prints and logs.
