//! Resolution of a tree of virtual-environment specifications into
//! content-addressed environments, and the bookkeeping of the tasks that
//! build and run them.

pub mod text;
pub mod version;
pub mod ordering;
pub mod ordered_map;
pub mod hashing;
pub mod spec_tree;
pub mod venv;
pub mod product;
pub mod shared;
pub mod resolve;
pub mod config;
pub mod selector;
pub mod display;
pub mod frame;
pub mod dashboard;
pub mod progress;
pub mod pytest;
pub mod cmdline;
pub mod paths;
pub mod builder;
pub mod targets;
pub mod completion;
pub mod command;
pub mod rt_config;
pub mod cli_args;
pub mod listing;
