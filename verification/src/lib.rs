//! Reverse-mode automatic-differentiation core for a tensor computation
//! framework, together with the tiled output-write step of a matrix
//! multiplication kernel.
//!
//! The crate has two halves. The autodiff half builds a dependency graph of
//! tensor operations through a staged preparation protocol (`ops`), decides
//! per node whether its value is stored or recomputed (`checkpoint`), and
//! replays the graph backward to accumulate gradients (`backward`, `grads`),
//! summing gradients back across broadcast dimensions (`broadcast`). Nodes,
//! their graphs and the tensor values they carry live in `graph` and
//! `tensor`. The kernel half (`write_output`) writes a computed tile into a
//! strided output buffer, honoring vectorized stores and run-time bounds
//! checks when the tile may overhang the output's extent: a row or lane
//! beyond the true extent is never written.

pub mod backward;
pub mod broadcast;
pub mod checkpoint;
pub mod grads;
pub mod graph;
pub mod ops;
pub mod tensor;
pub mod write_output;
