//! Verified core of a raw-video processing pipeline for AXIOM cameras:
//! frame descriptions, packed-sample unpacking, bit-depth conversion,
//! dual-frame line interleaving, row noise statistics, graph planning,
//! frame caching, task scheduling and the rules of readers and writers.

pub mod average;
pub mod bitdepth;
pub mod cache;
pub mod capture;
pub mod cfa;
pub mod chunks;
pub mod cube;
pub mod dng;
pub mod dual_frame;
pub mod error;
pub mod formatting;
pub mod frame;
pub mod frame_files;
pub mod gpu_nodes;
pub mod graph;
pub mod image;
pub mod interpretation;
pub mod node;
pub mod options;
pub mod parameters;
pub mod priority;
pub mod puller;
pub mod row_noise;
pub mod shader;
pub mod task_queue;
pub mod text;
pub mod usb3;
