//! A synchronous dataflow engine for block programs: stateful blocks with
//! typed ports are wired by a static connection table, and a bounded event
//! queue propagates freshly produced output values until the graph quiesces
//! or the step budget is exhausted.
#![allow(non_camel_case_types)]

pub mod block_library;
pub mod block_program;
pub mod engine;
pub mod hal_mock;
pub mod ports;
pub mod vecdeque;
