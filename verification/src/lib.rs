//! Build logic for UMF recipes: from a parsed recipe to the decisions, scripts,
//! archives and image configurations of a container or bootable build.
pub mod architecture;
pub mod arg_subst;
pub mod ast;
pub mod bench;
pub mod boot;
pub mod bootable;
pub mod digest;
pub mod engine_build;
pub mod fsutil;
pub mod host_requirements;
pub mod image;
pub mod initrd;
pub mod introspect;
pub mod json;
pub mod kernel;
pub mod l0;
pub mod label;
pub mod laws;
pub mod manifest;
pub mod metrics;
pub mod number;
pub mod order;
pub mod path;
pub mod platform;
pub mod reference;
pub mod resolver;
pub mod runtime_config;
pub mod runtime_writer;
pub mod text;
pub mod text_map;
pub mod vm_runner;
