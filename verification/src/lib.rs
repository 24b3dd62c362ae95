use vstd::prelude::*;

pub mod ids;
pub mod graph;
pub mod text;
pub mod tf;
pub mod marker;
pub mod discovery;
pub mod config;
pub mod panel;
pub mod theme;
pub mod cli;
pub mod color;
pub mod pointcloud;
pub mod occupancy;
pub mod buffers;
pub mod mock;
pub mod urdf;
pub mod tfviz;
pub mod nstree;
pub mod stats;
pub mod ui_state;
pub mod mesh;
pub mod publish;
pub mod session;
pub mod buckets;
