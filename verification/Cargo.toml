[package]
name = "wonnx_graph"
version = "0.1.0"
edition = "2021"
publish = false

[dependencies]
bytemuck = { version = "=1.25.2", features = ["min_const_generics"] }
log = "=0.4.35"
thiserror = "=1.0.69"
