//! Verified core of an IEC 61131-3 (Structured Text) fuzzing toolkit: IR text
//! scanning, struct layout handling, C harness generation, data-dependence
//! graphs, state bucketing and input mutation planning.
pub mod text;
pub mod fields;
pub mod go_explore;
pub mod config;
pub mod state_hash;
pub mod ddg_guide;
pub mod metadata;
pub mod ir_names;
pub mod ddg_graph;
pub mod render;
pub mod bc_ddg;
pub mod layout;
pub mod harness_gen;
pub mod heartbeat;
pub mod probe;
pub mod mutators;
pub mod input_plan;
pub mod fuzz_inputs;
pub mod plc_image;
pub mod sanity;
