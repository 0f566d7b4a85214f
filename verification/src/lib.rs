//! Runtime for loading and running compute kernels on a grid of Tensix cores.

pub mod builder;
pub mod bytes;
pub mod chip;
pub mod circular_buffer;
pub mod dram_allocator;
pub mod elf;
pub mod firmware;
pub mod ggml;
pub mod json;
pub mod kernel;
pub mod kernel_cache;
pub mod launch_data;
pub mod laws;
pub mod load_options;
pub mod loader;
pub mod netlist;
pub mod paths;
pub mod quick_load;
pub mod relocate;
pub mod simulator;
pub mod symbols;
pub mod text;
pub mod wire;
pub mod workload;
